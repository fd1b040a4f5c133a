//! Text helpers: decimal rendering of integers, whitespace trimming and
//! joining of string pieces.

use vstd::prelude::*;

verus! {

/// The ASCII digit that stands for `d`, for `d` in `0..10`.
pub open spec fn digit_char(d: nat) -> char {
    ((d + 48) as u8) as char
}

/// Decimal digits of a natural number, most significant first, no leading zero.
pub open spec fn nat_digits(n: nat) -> Seq<char>
    decreases n,
{
    if n < 10 {
        seq![digit_char(n)]
    } else {
        nat_digits(n / 10).push(digit_char(n % 10))
    }
}

/// Decimal text of an integer, with a leading `-` for negative numbers.
pub open spec fn decimal(i: int) -> Seq<char> {
    if i < 0 {
        seq!['-'] + nat_digits((-i) as nat)
    } else {
        nat_digits(i as nat)
    }
}

/// The value of a decimal digit character.
pub open spec fn digit_value(c: char) -> int {
    c as int - 48
}

/// Whether `c` is one of `0` to `9`.
pub open spec fn is_digit(c: char) -> bool {
    48 <= c as int <= 57
}

/// The value of a sequence of decimal digits, most significant first.
pub open spec fn digits_value(s: Seq<char>) -> int
    decreases s.len(),
{
    if s.len() == 0 {
        0
    } else {
        digits_value(s.drop_last()) * 10 + digit_value(s.last())
    }
}

/// Reads a decimal integer: an optional `-` followed by digits.
pub open spec fn parse_decimal(s: Seq<char>) -> int {
    if s.len() > 0 && s[0] == '-' {
        -digits_value(s.drop_first())
    } else {
        digits_value(s)
    }
}

/// A well-formed unsigned decimal: at least one digit, all digits, and no
/// leading zero unless the number is zero.
pub open spec fn canonical_digits(s: Seq<char>) -> bool {
    &&& s.len() > 0
    &&& forall|i: int| 0 <= i < s.len() ==> is_digit(#[trigger] s[i])
    &&& s[0] == '0' ==> s.len() == 1
}

/// The digits of a natural number are canonical and read back as the number.
pub proof fn lemma_nat_digits(n: nat)
    ensures
        canonical_digits(nat_digits(n)),
        digits_value(nat_digits(n)) == n,
        nat_digits(n)[0] == '0' ==> n == 0,
    decreases n,
{
    if n < 10 {
        assert(digit_char(n) as int == n + 48);
        assert(nat_digits(n).drop_last() =~= Seq::<char>::empty());
        assert(digits_value(nat_digits(n)) == digits_value(Seq::<char>::empty()) * 10
            + digit_value(digit_char(n)));
    } else {
        lemma_nat_digits(n / 10);
        let d = nat_digits(n);
        assert(d.drop_last() =~= nat_digits(n / 10));
        assert(digit_char(n % 10) as int == n % 10 + 48);
        assert(d[0] == nat_digits(n / 10)[0]);
        assert(d.last() == digit_char(n % 10));
        assert(digits_value(d) == digits_value(nat_digits(n / 10)) * 10 + digit_value(d.last()));
        assert(n == (n / 10) * 10 + n % 10);
    }
}

/// The decimal text of an integer reads back as that integer, and is
/// well-formed: an optional minus sign, then canonical digits, with no
/// minus sign before zero. So two integers with the same text are equal.
pub proof fn lemma_decimal_parse(i: int)
    ensures
        parse_decimal(decimal(i)) == i,
        decimal(i)[0] == '-' ==> i < 0 && canonical_digits(decimal(i).drop_first()),
        decimal(i)[0] != '-' ==> i >= 0 && canonical_digits(decimal(i)),
{
    if i < 0 {
        lemma_nat_digits((-i) as nat);
        assert(decimal(i).drop_first() =~= nat_digits((-i) as nat));
    } else {
        lemma_nat_digits(i as nat);
        assert(nat_digits(i as nat)[0] != '-');
    }
}

/// Renders `n` in decimal with `itoa::Buffer::format`.
///
/// Trusted: `itoa` documents that `format` prints the integer's string
/// representation, that is its decimal digits with a leading `-` when it is
/// negative; the contract states exactly that.
#[verifier::external_body]
pub(crate) fn format_decimal(n: i128) -> (res: String)
    ensures
        res@ == decimal(n as int),
{
    let mut buffer = itoa::Buffer::new();
    buffer.format(n).to_owned()
}

/// The pieces, in order, with `sep` between each two of them.
pub open spec fn join_with(pieces: Seq<Seq<char>>, sep: Seq<char>) -> Seq<char>
    decreases pieces.len(),
{
    if pieces.len() == 0 {
        seq![]
    } else if pieces.len() == 1 {
        pieces[0]
    } else {
        join_with(pieces.drop_last(), sep) + sep + pieces.last()
    }
}

/// Joined pieces: nothing for no pieces, the piece itself for one, and one
/// more piece appends the separator and that piece.
pub proof fn lemma_join_steps(pieces: Seq<Seq<char>>, piece: Seq<char>, sep: Seq<char>)
    ensures
        join_with(Seq::<Seq<char>>::empty(), sep) == Seq::<char>::empty(),
        join_with(seq![piece], sep) == piece,
        pieces.len() > 0 ==> join_with(pieces.push(piece), sep) == join_with(pieces, sep) + sep
            + piece,
{
    assert(seq![piece][0] == piece);
    assert(pieces.push(piece).drop_last() =~= pieces);
}

/// The views of a vector of strings.
pub open spec fn views_of(strings: Seq<String>) -> Seq<Seq<char>> {
    strings.map_values(|s: String| s@)
}

/// Joins strings with a separator.
pub fn join_strings(pieces: &Vec<String>, sep: &str) -> (res: String)
    ensures
        res@ == join_with(views_of(pieces@), sep@),
{
    let ghost all = views_of(pieces@);
    let mut res = String::new();
    let n = pieces.len();
    let mut i: usize = 0;
    assert(all.take(0) =~= Seq::<Seq<char>>::empty());
    while i < n
        invariant
            n == pieces@.len(),
            all == views_of(pieces@),
            i <= n,
            res@ == join_with(all.take(i as int), sep@),
        decreases n - i,
    {
        if i > 0 {
            res.append(sep);
        }
        res.append(pieces[i].as_str());
        assert(all.take(i + 1).drop_last() =~= all.take(i as int));
        if i == 0 {
            assert(res@ =~= join_with(all.take(1), sep@));
        }
        i = i + 1;
    }
    assert(all.take(n as int) =~= all);
    res
}

/// A joined text starts like its first piece and ends like its last piece.
pub proof fn lemma_join_ends(pieces: Seq<Seq<char>>, sep: Seq<char>)
    requires
        pieces.len() > 0,
        forall|i: int| 0 <= i < pieces.len() ==> #[trigger] pieces[i].len() > 0,
    ensures
        join_with(pieces, sep).len() > 0,
        join_with(pieces, sep)[0] == pieces[0][0],
        join_with(pieces, sep).last() == pieces.last().last(),
    decreases pieces.len(),
{
    if pieces.len() > 1 {
        lemma_join_ends(pieces.drop_last(), sep);
    }
}

/// Unicode White_Space characters: what `str::trim` removes.
pub open spec fn is_white_space(c: char) -> bool {
    let u = c as int;
    ||| 0x09 <= u <= 0x0d
    ||| u == 0x20
    ||| u == 0x85
    ||| u == 0xa0
    ||| u == 0x1680
    ||| 0x2000 <= u <= 0x200a
    ||| u == 0x2028
    ||| u == 0x2029
    ||| u == 0x202f
    ||| u == 0x205f
    ||| u == 0x3000
}

/// `s` without its leading white space.
pub open spec fn trim_start(s: Seq<char>) -> Seq<char>
    decreases s.len(),
{
    if s.len() > 0 && is_white_space(s[0]) {
        trim_start(s.drop_first())
    } else {
        s
    }
}

/// `s` without its trailing white space.
pub open spec fn trim_end(s: Seq<char>) -> Seq<char>
    decreases s.len(),
{
    if s.len() > 0 && is_white_space(s.last()) {
        trim_end(s.drop_last())
    } else {
        s
    }
}

/// `s` without its leading and trailing white space.
pub open spec fn trimmed(s: Seq<char>) -> Seq<char> {
    trim_end(trim_start(s))
}

/// Calls `str::trim`.
///
/// Trusted: std documents that `trim` returns the string slice with its
/// leading and trailing white space removed, white space being the
/// characters of the Unicode White_Space property.
#[verifier::external_body]
pub(crate) fn trim(s: &str) -> (res: &str)
    ensures
        res@ == trimmed(s@),
{
    s.trim()
}

/// A text that neither starts nor ends with white space trims to itself.
pub proof fn lemma_trimmed_unchanged(s: Seq<char>)
    requires
        s.len() > 0,
        !is_white_space(s[0]),
        !is_white_space(s.last()),
    ensures
        trimmed(s) == s,
{
}

} // verus!
