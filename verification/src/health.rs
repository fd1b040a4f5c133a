//! Health probing: the message that the health listener answers with, and
//! the verdict that the health check draws from it.

use vstd::prelude::*;

use crate::text::{
    is_white_space, join_strings, join_with, lemma_join_ends, lemma_trimmed_unchanged, trim,
    trimmed, views_of,
};

verus! {

/// What asking a component for its health gave.
#[derive(Debug, Clone, Copy, PartialEq, Eq)]
pub enum HealthOutcome {
    /// The component answered that it is healthy.
    Healthy,
    /// The component answered that it is unhealthy.
    Unhealthy,
    /// The question or its answer got lost.
    RoundtripError,
}

/// The complaint about a component, if there is one.
pub open spec fn outcome_message(name: Seq<char>, outcome: HealthOutcome) -> Option<Seq<char>> {
    match outcome {
        HealthOutcome::Healthy => None,
        HealthOutcome::Unhealthy => Some("component `"@ + name + "` is unhealthy"@),
        HealthOutcome::RoundtripError => Some(
            "component `"@ + name + "`: health channel roundtrip error"@,
        ),
    }
}

/// The complaints about the components, in the order of the reports.
pub open spec fn problems(reports: Seq<(String, HealthOutcome)>) -> Seq<Seq<char>>
    decreases reports.len(),
{
    if reports.len() == 0 {
        seq![]
    } else {
        let earlier = problems(reports.drop_last());
        match outcome_message(reports.last().0@, reports.last().1) {
            Some(m) => earlier.push(m),
            None => earlier,
        }
    }
}

/// Every component is healthy.
pub open spec fn all_healthy(reports: Seq<(String, HealthOutcome)>) -> bool {
    forall|i: int| 0 <= i < reports.len() ==> #[trigger] reports[i].1 == HealthOutcome::Healthy
}

/// The health message: `OK` when nothing is wrong, else the complaints
/// separated by ` & `.
pub open spec fn health_message_text(reports: Seq<(String, HealthOutcome)>) -> Seq<char> {
    if problems(reports).len() == 0 {
        "OK"@
    } else {
        join_with(problems(reports), " & "@)
    }
}

/// The message that the health listener sends for these reports.
pub fn health_message(reports: &Vec<(String, HealthOutcome)>) -> (res: String)
    ensures
        res@ == health_message_text(reports@),
{
    let mut complaints: Vec<String> = Vec::new();
    let n = reports.len();
    let mut i: usize = 0;
    assert(reports@.take(0) =~= Seq::<(String, HealthOutcome)>::empty());
    while i < n
        invariant
            n == reports@.len(),
            i <= n,
            views_of(complaints@) == problems(reports@.take(i as int)),
        decreases n - i,
    {
        let name = &reports[i].0;
        let ghost before = complaints@;
        match reports[i].1 {
            HealthOutcome::Healthy => {},
            HealthOutcome::Unhealthy => {
                let mut m = String::from_str("component `");
                m.append(name.as_str());
                m.append("` is unhealthy");
                complaints.push(m);
            },
            HealthOutcome::RoundtripError => {
                let mut m = String::from_str("component `");
                m.append(name.as_str());
                m.append("`: health channel roundtrip error");
                complaints.push(m);
            },
        }
        assert(reports@.take(i + 1).drop_last() =~= reports@.take(i as int));
        assert(views_of(complaints@) =~= problems(reports@.take(i + 1)));
        i = i + 1;
    }
    assert(reports@.take(n as int) =~= reports@);
    if complaints.len() == 0 {
        String::from_str("OK")
    } else {
        join_strings(&complaints, " & ")
    }
}

/// There is nothing to complain about exactly when every component is
/// healthy.
pub proof fn lemma_no_problems_iff_all_healthy(reports: Seq<(String, HealthOutcome)>)
    ensures
        (problems(reports).len() == 0) == all_healthy(reports),
    decreases reports.len(),
{
    if reports.len() > 0 {
        let prefix = reports.drop_last();
        lemma_no_problems_iff_all_healthy(prefix);
        if all_healthy(reports) {
            assert(reports[reports.len() - 1].1 == HealthOutcome::Healthy);
            assert forall|i: int| 0 <= i < prefix.len() implies #[trigger] prefix[i].1
                == HealthOutcome::Healthy by {
                assert(prefix[i] == reports[i]);
            }
        } else if all_healthy(prefix) && reports.last().1 == HealthOutcome::Healthy {
            assert forall|i: int| 0 <= i < reports.len() implies #[trigger] reports[i].1
                == HealthOutcome::Healthy by {
                if i < prefix.len() {
                    assert(prefix[i] == reports[i]);
                }
            }
        }
    }
}

/// Every complaint starts with `component` and ends with the last letter of
/// `unhealthy` or of `error`.
proof fn lemma_problem_shape(reports: Seq<(String, HealthOutcome)>, i: int)
    requires
        0 <= i < problems(reports).len(),
    ensures
        problems(reports)[i].len() > 0,
        problems(reports)[i][0] == 'c',
        problems(reports)[i].last() == 'y' || problems(reports)[i].last() == 'r',
    decreases reports.len(),
{
    reveal_strlit("component `");
    reveal_strlit("` is unhealthy");
    reveal_strlit("`: health channel roundtrip error");
    let prefix = reports.drop_last();
    if i < problems(prefix).len() {
        lemma_problem_shape(prefix, i);
    } else {
        let name = reports.last().0@;
        match reports.last().1 {
            HealthOutcome::Healthy => {},
            HealthOutcome::Unhealthy => {
                let m = "component `"@ + name + "` is unhealthy"@;
                assert(m[0] == 'c');
                assert(m.last() == 'y');
            },
            HealthOutcome::RoundtripError => {
                let m = "component `"@ + name + "`: health channel roundtrip error"@;
                assert(m[0] == 'c');
                assert(m.last() == 'r');
            },
        }
    }
}

/// What the health check concludes from a health message: success when
/// the message, without surrounding white space, is `OK`; otherwise the
/// trimmed message is the error.
pub open spec fn verdict_text(status: Seq<char>) -> Result<(), Seq<char>> {
    if trimmed(status) == "OK"@ {
        Ok(())
    } else {
        Err(trimmed(status))
    }
}

/// The health check's verdict on a health message.
pub fn health_status_verdict(status: &str) -> (res: Result<(), String>)
    ensures
        verdict_text(status@) matches Ok(_) ==> res is Ok,
        verdict_text(status@) matches Err(e) ==> (res matches Err(r) && r@ == e),
{
    let trimmed_status = trim(status).to_owned();
    let ok = String::from_str("OK");
    if trimmed_status == ok {
        Ok(())
    } else {
        Err(trimmed_status)
    }
}

/// The health check accepts the listener's message exactly when every
/// component is healthy.
pub proof fn lemma_verdict_of_health_message(reports: Seq<(String, HealthOutcome)>)
    ensures
        (verdict_text(health_message_text(reports)) is Ok) == all_healthy(reports),
{
    reveal_strlit("OK");
    lemma_no_problems_iff_all_healthy(reports);
    let ps = problems(reports);
    if ps.len() == 0 {
        let ok = "OK"@;
        assert(!is_white_space(ok[0]) && !is_white_space(ok.last()));
        lemma_trimmed_unchanged(ok);
    } else {
        assert forall|i: int| 0 <= i < ps.len() implies #[trigger] ps[i].len() > 0 by {
            lemma_problem_shape(reports, i);
        }
        lemma_join_ends(ps, " & "@);
        lemma_problem_shape(reports, 0);
        lemma_problem_shape(reports, ps.len() - 1);
        let m = join_with(ps, " & "@);
        lemma_trimmed_unchanged(m);
        assert(m[0] != "OK"@[0]);
    }
}

/// One complaint per report that is not healthy, in the order of the
/// reports: a healthy report adds nothing, an unhealthy one adds
/// ``component `name` is unhealthy``, a lost roundtrip adds
/// ``component `name`: health channel roundtrip error``.
pub proof fn lemma_problems_steps(reports: Seq<(String, HealthOutcome)>, report: (String, HealthOutcome))
    ensures
        problems(Seq::<(String, HealthOutcome)>::empty()) == Seq::<Seq<char>>::empty(),
        report.1 == HealthOutcome::Healthy ==> problems(reports.push(report)) == problems(reports),
        report.1 == HealthOutcome::Unhealthy ==> problems(reports.push(report)) == problems(
            reports,
        ).push("component `"@ + report.0@ + "` is unhealthy"@),
        report.1 == HealthOutcome::RoundtripError ==> problems(reports.push(report)) == problems(
            reports,
        ).push("component `"@ + report.0@ + "`: health channel roundtrip error"@),
{
    assert(reports.push(report).drop_last() =~= reports);
}

/// The message is `OK` when there is nothing to complain about, and the
/// complaints separated by ` & ` otherwise.
pub proof fn lemma_health_message_shape(reports: Seq<(String, HealthOutcome)>)
    ensures
        all_healthy(reports) ==> health_message_text(reports) == "OK"@,
        !all_healthy(reports) ==> health_message_text(reports) == join_with(
            problems(reports),
            " & "@,
        ),
{
    lemma_no_problems_iff_all_healthy(reports);
}

} // verus!
