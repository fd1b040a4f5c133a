//! Text replacement with an Aho-Corasick automaton, and the character
//! escaping of the line protocol built on it.

use vstd::prelude::*;

verus! {

#[verifier::external_type_specification]
#[verifier::external_body]
pub struct ExAhoCorasick(aho_corasick::AhoCorasick);

#[verifier::external_type_specification]
#[verifier::external_body]
pub struct ExBuildError(aho_corasick::BuildError);

/// The patterns that an automaton holds, in the order it was built with
/// (pattern `i` is reported with index `i`).
pub uninterp spec fn automaton_patterns(automaton: aho_corasick::AhoCorasick) -> Seq<Seq<char>>;

/// What `AhoCorasick::replace_all` gives for an automaton of `patterns`
/// (default build, standard match semantics), the replacements given and
/// `haystack`.
pub uninterp spec fn replaced_text(
    patterns: Seq<Seq<char>>,
    replacements: Seq<Seq<char>>,
    haystack: Seq<char>,
) -> Seq<char>;

/// The sum of the lengths of the patterns, in characters.
pub open spec fn total_len(patterns: Seq<Seq<char>>) -> nat
    decreases patterns.len(),
{
    if patterns.len() == 0 {
        0
    } else {
        total_len(patterns.drop_last()) + patterns.last().len()
    }
}

/// Every pattern is one character, and no two patterns are equal.
pub open spec fn single_char_patterns(patterns: Seq<Seq<char>>) -> bool {
    &&& forall|i: int| 0 <= i < patterns.len() ==> #[trigger] patterns[i].len() == 1
    &&& forall|i: int, j: int|
        0 <= i < patterns.len() && 0 <= j < patterns.len() && i != j ==> #[trigger] patterns[i][0]
            != #[trigger] patterns[j][0]
}

/// The first character of each pattern.
pub open spec fn first_chars(patterns: Seq<Seq<char>>) -> Seq<char> {
    patterns.map_values(|p: Seq<char>| p[0])
}

/// The views of a sequence of string slices.
pub open spec fn str_views(strs: Seq<&str>) -> Seq<Seq<char>> {
    strs.map_values(|s: &str| s@)
}

/// The views of a sequence of strings.
pub open spec fn string_views(strs: Seq<String>) -> Seq<Seq<char>> {
    strs.map_values(|s: String| s@)
}

/// What a character becomes: the replacement of the pattern it equals,
/// or the character itself.
pub open spec fn replacement_for(c: char, from: Seq<char>, to: Seq<Seq<char>>) -> Seq<char> {
    if from.contains(c) {
        to[from.index_of(c)]
    } else {
        seq![c]
    }
}

/// Every character of `s` replaced by `replacement_for`, left to right.
pub open spec fn replace_each(s: Seq<char>, from: Seq<char>, to: Seq<Seq<char>>) -> Seq<char>
    decreases s.len(),
{
    if s.len() == 0 {
        seq![]
    } else {
        replacement_for(s[0], from, to) + replace_each(s.drop_first(), from, to)
    }
}

/// Each special character preceded by a backslash.
pub open spec fn backslashed(specials: Seq<char>) -> Seq<Seq<char>> {
    specials.map_values(|c: char| seq!['\\', c])
}

/// `s` with a backslash put before each of its special characters.
pub open spec fn escape(s: Seq<char>, specials: Seq<char>) -> Seq<char> {
    replace_each(s, specials, backslashed(specials))
}

/// Reads escaped text back: a backslash followed by a special character
/// stands for that character, everything else stands for itself.
pub open spec fn unescape(s: Seq<char>, specials: Seq<char>) -> Seq<char>
    decreases s.len(),
{
    if s.len() == 0 {
        seq![]
    } else if s.len() >= 2 && s[0] == '\\' && specials.contains(s[1]) {
        seq![s[1]] + unescape(s.subrange(2, s.len() as int), specials)
    } else {
        seq![s[0]] + unescape(s.drop_first(), specials)
    }
}

/// Builds an automaton with `aho_corasick::AhoCorasick::new`.
///
/// Trusted: the automaton keeps the patterns in the order given (pattern
/// `i` is reported with index `i`). The crate's sources fail a build only
/// when a pattern, state, transition or match identifier would pass its
/// limit of 2^31 - 2 (a failed DFA or contiguous NFA falls back to another
/// kind). With at most 4096 patterns of at most 4096 characters in all
/// (16384 bytes), the noncontiguous NFA has fewer than 2^15 states, fewer
/// than 2^23 transitions and fewer than 2^27 match entries, so the build
/// succeeds.
#[verifier::external_body]
fn build_automaton(patterns: &[&str]) -> (res: Result<aho_corasick::AhoCorasick, aho_corasick::BuildError>)
    requires
        patterns@.len() <= 4096,
        total_len(str_views(patterns@)) <= 4096,
    ensures
        res is Ok,
        automaton_patterns(res->Ok_0) == str_views(patterns@),
{
    aho_corasick::AhoCorasick::new(patterns)
}

/// Calls `aho_corasick::AhoCorasick::replace_all`.
///
/// Trusted: the result is a function of the automaton's patterns, the
/// replacements and the haystack, named `replaced_text`. `replace_all`
/// replaces every non-overlapping match, found left to right under the
/// default (standard) match semantics, by the replacement of the same index.
/// When the patterns are distinct single characters, every occurrence of
/// such a character in the haystack is a match of its own (the UTF-8
/// encoding of a whole character starts with a lead byte and can only match
/// at a character boundary, where it matches that character alone), so the
/// result replaces each of those characters and keeps the others. It does
/// not panic when there are as many replacements as patterns and the
/// automaton supports unanchored searches, which the default build does.
#[verifier::external_body]
fn automaton_replace_all(
    automaton: &aho_corasick::AhoCorasick,
    haystack: &str,
    replace_with: &Vec<String>,
) -> (res: String)
    requires
        replace_with@.len() == automaton_patterns(*automaton).len(),
    ensures
        res@ == replaced_text(
            automaton_patterns(*automaton),
            string_views(replace_with@),
            haystack@,
        ),
        single_char_patterns(automaton_patterns(*automaton)) ==> res@ == replace_each(
            haystack@,
            first_chars(automaton_patterns(*automaton)),
            string_views(replace_with@),
        ),
{
    automaton.replace_all(haystack, replace_with.as_slice())
}

/// Replaces patterns by strings, all at once.
pub struct Replacer {
    automaton: aho_corasick::AhoCorasick,
    to: Vec<String>,
}

impl Replacer {
    /// The patterns that get replaced.
    pub closed spec fn patterns(&self) -> Seq<Seq<char>> {
        automaton_patterns(self.automaton)
    }

    /// Their replacements, in the same order.
    pub closed spec fn to_texts(&self) -> Seq<Seq<char>> {
        string_views(self.to@)
    }

    /// A replacer of each `from[i]` by `to[i]`.
    pub fn new(from: &[&str], to: &[&str]) -> (res: Self)
        requires
            from@.len() <= 4096,
            total_len(str_views(from@)) <= 4096,
        ensures
            res.patterns() == str_views(from@),
            res.to_texts() == str_views(to@),
    {
        let automaton = match build_automaton(from) {
            Ok(automaton) => automaton,
            Err(_) => vstd::pervasive::unreached(),
        };
        let mut replacements: Vec<String> = Vec::new();
        let n = to.len();
        let mut i: usize = 0;
        while i < n
            invariant
                n == to@.len(),
                i <= n,
                replacements@.len() == i,
                forall|j: int| 0 <= j < i ==> #[trigger] replacements@[j]@ == to@[j]@,
            decreases n - i,
        {
            replacements.push(to[i].to_owned());
            i = i + 1;
        }
        assert(string_views(replacements@) =~= str_views(to@));
        Replacer { automaton, to: replacements }
    }

    /// `haystack` with every match of a pattern replaced by its replacement;
    /// for distinct single-character patterns, every occurrence of such a
    /// character is replaced and every other character kept.
    pub fn replace_all(&self, haystack: &str) -> (res: String)
        requires
            self.to_texts().len() == self.patterns().len(),
        ensures
            res@ == replaced_text(self.patterns(), self.to_texts(), haystack@),
            single_char_patterns(self.patterns()) ==> res@ == replace_each(
                haystack@,
                first_chars(self.patterns()),
                self.to_texts(),
            ),
    {
        automaton_replace_all(&self.automaton, haystack, &self.to)
    }
}

/// A character that is special becomes a backslash and itself; any other
/// character stays as it is.
pub proof fn lemma_backslashed_replacement(c: char, specials: Seq<char>)
    ensures
        replacement_for(c, specials, backslashed(specials)) == (if specials.contains(c) {
            seq!['\\', c]
        } else {
            seq![c]
        }),
{
    if specials.contains(c) {
        let i = specials.index_of(c);
        assert(0 <= i < specials.len() && specials[i] == c);
    }
}

/// Text without special characters is left as it is by escaping.
pub proof fn lemma_escape_plain(s: Seq<char>, specials: Seq<char>)
    requires
        forall|i: int| 0 <= i < s.len() ==> !specials.contains(#[trigger] s[i]),
    ensures
        escape(s, specials) == s,
    decreases s.len(),
{
    if s.len() > 0 {
        lemma_backslashed_replacement(s[0], specials);
        assert forall|i: int| 0 <= i < s.drop_first().len() implies !specials.contains(
            #[trigger] s.drop_first()[i],
        ) by {
            assert(s.drop_first()[i] == s[i + 1]);
        }
        lemma_escape_plain(s.drop_first(), specials);
        assert(seq![s[0]] + s.drop_first() =~= s);
    } else {
        assert(escape(s, specials) =~= s);
    }
}

/// Escaping text made of two parts escapes each part on its own.
pub proof fn lemma_escape_concat(a: Seq<char>, b: Seq<char>, specials: Seq<char>)
    ensures
        escape(a + b, specials) == escape(a, specials) + escape(b, specials),
    decreases a.len(),
{
    if a.len() == 0 {
        assert(a + b =~= b);
        assert(escape(a, specials) =~= seq![]);
        assert(escape(a, specials) + escape(b, specials) =~= escape(b, specials));
    } else {
        assert((a + b).drop_first() =~= a.drop_first() + b);
        assert((a + b)[0] == a[0]);
        lemma_escape_concat(a.drop_first(), b, specials);
        assert(escape(a + b, specials) =~= escape(a, specials) + escape(b, specials));
    }
}

/// A special character is escaped as a backslash followed by itself; any
/// other character is kept as it is.
pub proof fn lemma_escape_char(c: char, specials: Seq<char>)
    ensures
        specials.contains(c) ==> escape(seq![c], specials) == seq!['\\', c],
        !specials.contains(c) ==> escape(seq![c], specials) == seq![c],
{
    lemma_backslashed_replacement(c, specials);
    assert(seq![c].drop_first() =~= Seq::<char>::empty());
    assert(seq![c].drop_first().len() == 0);
    assert(replace_each(seq![c].drop_first(), specials, backslashed(specials)) =~= seq![]);
    assert(seq![c][0] == c);
    assert(escape(seq![c], specials) =~= replacement_for(c, specials, backslashed(specials)));
}

/// The first character of an escaped non-empty text.
proof fn lemma_escape_first(s: Seq<char>, specials: Seq<char>)
    requires
        s.len() > 0,
    ensures
        escape(s, specials).len() > 0,
        escape(s, specials)[0] == (if specials.contains(s[0]) {
            '\\'
        } else {
            s[0]
        }),
{
    lemma_backslashed_replacement(s[0], specials);
}

/// Decoding escaped text gives back the original text: escaping loses
/// nothing, and two different texts never escape to the same text.
pub proof fn lemma_unescape_escape(s: Seq<char>, specials: Seq<char>)
    ensures
        unescape(escape(s, specials), specials) == s,
    decreases s.len(),
{
    if s.len() == 0 {
        assert(escape(s, specials) =~= seq![]);
    } else {
        let rest = s.drop_first();
        let e = escape(s, specials);
        let er = escape(rest, specials);
        lemma_backslashed_replacement(s[0], specials);
        lemma_unescape_escape(rest, specials);
        if specials.contains(s[0]) {
            assert(e =~= seq!['\\', s[0]] + er);
            assert(e.subrange(2, e.len() as int) =~= er);
            assert(unescape(e, specials) =~= seq![s[0]] + rest);
        } else {
            assert(e =~= seq![s[0]] + er);
            assert(e.drop_first() =~= er);
            if e.len() >= 2 && e[0] == '\\' && specials.contains(e[1]) {
                // The character after a literal backslash is never special.
                lemma_escape_first(rest, specials);
                assert(e[1] == er[0]);
                assert(false);
            }
            assert(unescape(e, specials) =~= seq![s[0]] + rest);
        }
        assert(seq![s[0]] + rest =~= s);
    }
}

/// Two texts with the same escaping are equal.
pub proof fn lemma_escape_injective(s1: Seq<char>, s2: Seq<char>, specials: Seq<char>)
    requires
        escape(s1, specials) == escape(s2, specials),
    ensures
        s1 == s2,
{
    lemma_unescape_escape(s1, specials);
    lemma_unescape_escape(s2, specials);
}

/// When the backslash itself is not special, every special character of
/// escaped text is preceded by a backslash: a separator never stands alone.
pub proof fn lemma_escaped_specials_follow_backslash(s: Seq<char>, specials: Seq<char>, i: int)
    requires
        !specials.contains('\\'),
        0 <= i < escape(s, specials).len(),
        specials.contains(escape(s, specials)[i]),
    ensures
        i > 0,
        escape(s, specials)[i - 1] == '\\',
    decreases s.len(),
{
    let rest = s.drop_first();
    let e = escape(s, specials);
    let er = escape(rest, specials);
    lemma_backslashed_replacement(s[0], specials);
    if specials.contains(s[0]) {
        assert(e =~= seq!['\\', s[0]] + er);
        if i >= 2 {
            lemma_escaped_specials_follow_backslash(rest, specials, i - 2);
            assert(e[i - 1] == er[i - 3]);
        }
    } else {
        assert(e =~= seq![s[0]] + er);
        if i >= 1 {
            lemma_escaped_specials_follow_backslash(rest, specials, i - 1);
            assert(e[i] == er[i - 1]);
            if i >= 2 {
                assert(e[i - 1] == er[i - 2]);
            } else {
                lemma_escape_first(rest, specials);
                assert(er[0] == '\\' || !specials.contains(er[0]));
                assert(false);
            }
        }
    }
}

/// Characters escaped in a measurement name.
pub open spec fn measurement_specials() -> Seq<char> {
    seq![',', ' ']
}

/// Characters escaped in tag keys, tag values and field keys.
pub open spec fn key_specials() -> Seq<char> {
    seq![',', '=', ' ']
}

/// Characters escaped inside a string field value.
pub open spec fn string_specials() -> Seq<char> {
    seq!['"', '\\']
}

/// Each character as a pattern of its own.
pub open spec fn char_patterns(chars: Seq<char>) -> Seq<Seq<char>> {
    chars.map_values(|c: char| seq![c])
}

/// Distinct characters make distinct single-character patterns, whose first
/// characters are those characters.
proof fn lemma_char_patterns(chars: Seq<char>)
    requires
        forall|i: int, j: int|
            0 <= i < chars.len() && 0 <= j < chars.len() && i != j ==> chars[i] != chars[j],
    ensures
        single_char_patterns(char_patterns(chars)),
        first_chars(char_patterns(chars)) == chars,
        char_patterns(chars).len() == chars.len(),
        total_len(char_patterns(chars)) == chars.len(),
    decreases chars.len(),
{
    assert(first_chars(char_patterns(chars)) =~= chars);
    if chars.len() > 0 {
        lemma_char_patterns(chars.drop_last());
        assert(char_patterns(chars).drop_last() =~= char_patterns(chars.drop_last()));
    }
}

/// The three escapers of the line protocol.
pub struct LineEscapers {
    measurement: Replacer,
    key: Replacer,
    string_value: Replacer,
}

impl LineEscapers {
    pub closed spec fn wf(&self) -> bool {
        &&& self.measurement.patterns() == char_patterns(measurement_specials())
        &&& self.measurement.to_texts() == backslashed(measurement_specials())
        &&& self.key.patterns() == char_patterns(key_specials())
        &&& self.key.to_texts() == backslashed(key_specials())
        &&& self.string_value.patterns() == char_patterns(string_specials())
        &&& self.string_value.to_texts() == backslashed(string_specials())
    }

    /// Builds the escapers.
    pub fn new() -> (res: Self)
        ensures
            res.wf(),
    {
        let measurement_from: Vec<&str> = vec![",", " "];
        let measurement_to: Vec<&str> = vec!["\\,", "\\ "];
        let key_from: Vec<&str> = vec![",", "=", " "];
        let key_to: Vec<&str> = vec!["\\,", "\\=", "\\ "];
        let string_from: Vec<&str> = vec!["\"", "\\"];
        let string_to: Vec<&str> = vec!["\\\"", "\\\\"];
        proof {
            reveal_strlit(",");
            reveal_strlit(" ");
            reveal_strlit("=");
            reveal_strlit("\"");
            reveal_strlit("\\");
            reveal_strlit("\\,");
            reveal_strlit("\\ ");
            reveal_strlit("\\=");
            reveal_strlit("\\\"");
            reveal_strlit("\\\\");
            assert(measurement_from@.len() == 2);
            assert(measurement_from@[0]@ =~= seq![',']);
            assert(measurement_from@[1]@ =~= seq![' ']);
            assert(str_views(measurement_from@) =~= char_patterns(measurement_specials()));
            assert(measurement_to@.len() == 2);
            assert(measurement_to@[0]@ =~= seq!['\\', ',']);
            assert(measurement_to@[1]@ =~= seq!['\\', ' ']);
            assert(str_views(measurement_to@) =~= backslashed(measurement_specials()));
            assert(key_from@.len() == 3);
            assert(key_from@[0]@ =~= seq![',']);
            assert(key_from@[1]@ =~= seq!['=']);
            assert(key_from@[2]@ =~= seq![' ']);
            assert(str_views(key_from@) =~= char_patterns(key_specials()));
            assert(key_to@.len() == 3);
            assert(key_to@[0]@ =~= seq!['\\', ',']);
            assert(key_to@[1]@ =~= seq!['\\', '=']);
            assert(key_to@[2]@ =~= seq!['\\', ' ']);
            assert(str_views(key_to@) =~= backslashed(key_specials()));
            assert(string_from@.len() == 2);
            assert(string_from@[0]@ =~= seq!['"']);
            assert(string_from@[1]@ =~= seq!['\\']);
            assert(str_views(string_from@) =~= char_patterns(string_specials()));
            assert(string_to@.len() == 2);
            assert(string_to@[0]@ =~= seq!['\\', '"']);
            assert(string_to@[1]@ =~= seq!['\\', '\\']);
            assert(str_views(string_to@) =~= backslashed(string_specials()));
            lemma_char_patterns(measurement_specials());
            lemma_char_patterns(key_specials());
            lemma_char_patterns(string_specials());
        }
        let measurement = Replacer::new(measurement_from.as_slice(), measurement_to.as_slice());
        let key = Replacer::new(key_from.as_slice(), key_to.as_slice());
        let string_value = Replacer::new(string_from.as_slice(), string_to.as_slice());
        LineEscapers { measurement, key, string_value }
    }

    /// A measurement name with its commas and spaces escaped.
    pub fn escape_measurement(&self, s: &str) -> (res: String)
        requires
            self.wf(),
        ensures
            res@ == escape(s@, measurement_specials()),
    {
        proof {
            lemma_char_patterns(measurement_specials());
        }
        self.measurement.replace_all(s)
    }

    /// A tag key, tag value or field key with its commas, equal signs and
    /// spaces escaped.
    pub fn escape_key(&self, s: &str) -> (res: String)
        requires
            self.wf(),
        ensures
            res@ == escape(s@, key_specials()),
    {
        proof {
            lemma_char_patterns(key_specials());
        }
        self.key.replace_all(s)
    }

    /// A string field value with its double quotes and backslashes escaped.
    pub fn escape_string_value(&self, s: &str) -> (res: String)
        requires
            self.wf(),
        ensures
            res@ == escape(s@, string_specials()),
    {
        proof {
            lemma_char_patterns(string_specials());
        }
        self.string_value.replace_all(s)
    }
}

} // verus!
