//! File names for crash records and for the workers' scratch files.

use vstd::prelude::*;
use vstd::string::*;

verus! {

/// The character that writes the digit `d`.
pub open spec fn digit_char(d: nat) -> char {
    if d == 0 {
        '0'
    } else if d == 1 {
        '1'
    } else if d == 2 {
        '2'
    } else if d == 3 {
        '3'
    } else if d == 4 {
        '4'
    } else if d == 5 {
        '5'
    } else if d == 6 {
        '6'
    } else if d == 7 {
        '7'
    } else if d == 8 {
        '8'
    } else {
        '9'
    }
}

/// Whether `c` is one of the ten digits.
pub open spec fn is_digit(c: char) -> bool {
    exists|d: nat| d < 10 && c == #[trigger] digit_char(d)
}

/// `n` in decimal, most significant digit first, without leading zeros.
pub open spec fn decimal(n: nat) -> Seq<char>
    decreases n,
{
    if n < 10 {
        seq![digit_char(n)]
    } else {
        decimal(n / 10).push(digit_char(n % 10))
    }
}

/// `v` in decimal, with a leading minus sign when it is negative.
pub open spec fn signed_decimal(v: int) -> Seq<char> {
    if v < 0 {
        seq!['-'] + decimal((-v) as nat)
    } else {
        decimal(v as nat)
    }
}

/// The name of a crash record: the exit code, an underscore, the
/// disambiguator, then the suffix.
pub open spec fn crash_name(exit_code: i32, tag: u32, suffix: Seq<char>) -> Seq<char> {
    signed_decimal(exit_code as int) + seq!['_'] + decimal(tag as nat) + suffix
}

/// The name of a worker's scratch file: `tmp_`, the worker's number, then the
/// suffix.
pub open spec fn scratch_name(worker: usize, suffix: Seq<char>) -> Seq<char> {
    seq!['t', 'm', 'p', '_'] + decimal(worker as nat) + suffix
}

/// The position of the first underscore at or after `from`, or the length of
/// the name when there is none.
pub open spec fn first_underscore(name: Seq<char>, from: int) -> int
    decreases name.len() - from,
{
    if from < 0 || from >= name.len() {
        name.len() as int
    } else if name[from] == '_' {
        from
    } else {
        first_underscore(name, from + 1)
    }
}

/// The part of a name that precedes its first underscore; the whole name
/// when it has none. In a crash record's name this is the exit code.
pub open spec fn code_part(name: Seq<char>) -> Seq<char> {
    name.subrange(0, first_underscore(name, 0))
}

fn digit_str(d: u64) -> (s: &'static str)
    requires
        d < 10,
    ensures
        s@ == seq![digit_char(d as nat)],
{
    proof {
        reveal_strlit("0");
        reveal_strlit("1");
        reveal_strlit("2");
        reveal_strlit("3");
        reveal_strlit("4");
        reveal_strlit("5");
        reveal_strlit("6");
        reveal_strlit("7");
        reveal_strlit("8");
        reveal_strlit("9");
    }
    let s: &'static str = if d == 0 {
        "0"
    } else if d == 1 {
        "1"
    } else if d == 2 {
        "2"
    } else if d == 3 {
        "3"
    } else if d == 4 {
        "4"
    } else if d == 5 {
        "5"
    } else if d == 6 {
        "6"
    } else if d == 7 {
        "7"
    } else if d == 8 {
        "8"
    } else {
        "9"
    };
    assert(s@ =~= seq![digit_char(d as nat)]);
    s
}

fn push_decimal(out: &mut String, n: u64)
    ensures
        final(out)@ == old(out)@ + decimal(n as nat),
    decreases n,
{
    if n >= 10 {
        push_decimal(out, n / 10);
    }
    out.append(digit_str(n % 10));
    assert(final(out)@ =~= old(out)@ + decimal(n as nat));
}

fn push_signed_decimal(out: &mut String, v: i32)
    ensures
        final(out)@ == old(out)@ + signed_decimal(v as int),
{
    if v < 0 {
        proof {
            reveal_strlit("-");
        }
        out.append("-");
        let magnitude: u64 = (-(v as i64)) as u64;
        push_decimal(out, magnitude);
        assert(final(out)@ =~= old(out)@ + signed_decimal(v as int));
    } else {
        push_decimal(out, v as u64);
    }
}

/// Names the record of a crash after its exit code and a disambiguator.
/// `suffix` is appended as it stands; it carries the extension that the
/// target expects of its input, dot included.
pub fn crash_file_name(exit_code: i32, tag: u32, suffix: &str) -> (name: String)
    ensures
        name@ == crash_name(exit_code, tag, suffix@),
{
    let mut name = String::new();
    push_signed_decimal(&mut name, exit_code);
    proof {
        reveal_strlit("_");
    }
    name.append("_");
    push_decimal(&mut name, tag as u64);
    name.append(suffix);
    assert(name@ =~= crash_name(exit_code, tag, suffix@));
    name
}

/// Names the scratch file of the worker with the given number.
pub fn scratch_file_name(worker: usize, suffix: &str) -> (name: String)
    ensures
        name@ == scratch_name(worker, suffix@),
{
    proof {
        reveal_strlit("tmp_");
    }
    let mut name = String::new();
    name.append("tmp_");
    push_decimal(&mut name, worker as u64);
    name.append(suffix);
    assert(name@ =~= scratch_name(worker, suffix@));
    name
}

/// Reads the exit code's text off the name of a crash record: everything up
/// to the first underscore, or the whole name when it has none.
pub fn code_text<'a>(name: &'a str) -> (text: &'a str)
    ensures
        text@ == code_part(name@),
{
    let n = name.unicode_len();
    let mut k: usize = 0;
    while k < n && name.get_char(k) != '_'
        invariant
            k <= n,
            n == name@.len(),
            first_underscore(name@, 0) == first_underscore(name@, k as int),
        decreases n - k,
    {
        k += 1;
    }
    name.substring_char(0, k)
}

/// A decimal numeral is never empty, holds digits only, and has more than one
/// digit exactly when the number is ten or more.
pub proof fn lemma_decimal_shape(n: nat)
    ensures
        decimal(n).len() >= 1,
        n >= 10 <==> decimal(n).len() >= 2,
        forall|i: int| 0 <= i < decimal(n).len() ==> is_digit(#[trigger] decimal(n)[i]),
    decreases n,
{
    if n < 10 {
        assert(is_digit(digit_char(n)));
    } else {
        lemma_decimal_shape(n / 10);
        assert(is_digit(digit_char(n % 10)));
    }
}

/// Different numbers have different decimal numerals.
pub proof fn lemma_decimal_injective(a: nat, b: nat)
    requires
        decimal(a) == decimal(b),
    ensures
        a == b,
    decreases a,
{
    lemma_decimal_shape(a);
    lemma_decimal_shape(b);
    if a < 10 {
        assert(decimal(a)[0] == digit_char(a));
        assert(decimal(b)[0] == digit_char(b));
    } else {
        let high_a = decimal(a / 10);
        let high_b = decimal(b / 10);
        assert(decimal(a).drop_last() =~= high_a);
        assert(decimal(b).drop_last() =~= high_b);
        assert(decimal(a).last() == digit_char(a % 10));
        assert(decimal(b).last() == digit_char(b % 10));
        lemma_decimal_injective(a / 10, b / 10);
    }
}

/// Different integers have different signed decimal numerals.
pub proof fn lemma_signed_decimal_injective(a: int, b: int)
    requires
        signed_decimal(a) == signed_decimal(b),
    ensures
        a == b,
{
    let magnitude_a = if a < 0 { (-a) as nat } else { a as nat };
    let magnitude_b = if b < 0 { (-b) as nat } else { b as nat };
    lemma_decimal_shape(magnitude_a);
    lemma_decimal_shape(magnitude_b);
    if a < 0 && b < 0 {
        assert(signed_decimal(a).subrange(1, signed_decimal(a).len() as int) =~= decimal(
            magnitude_a,
        ));
        assert(signed_decimal(b).subrange(1, signed_decimal(b).len() as int) =~= decimal(
            magnitude_b,
        ));
        lemma_decimal_injective(magnitude_a, magnitude_b);
    } else if a >= 0 && b >= 0 {
        lemma_decimal_injective(magnitude_a, magnitude_b);
    } else if a < 0 {
        assert(signed_decimal(a)[0] == '-');
        assert(is_digit(decimal(magnitude_b)[0]));
    } else {
        assert(signed_decimal(b)[0] == '-');
        assert(is_digit(decimal(magnitude_a)[0]));
    }
}

/// A signed decimal numeral holds no underscore.
pub proof fn lemma_signed_decimal_has_no_underscore(v: int)
    ensures
        signed_decimal(v).len() >= 1,
        forall|i: int| 0 <= i < signed_decimal(v).len() ==> #[trigger] signed_decimal(v)[i] != '_',
{
    let magnitude = if v < 0 { (-v) as nat } else { v as nat };
    lemma_decimal_shape(magnitude);
    assert forall|i: int| 0 <= i < signed_decimal(v).len() implies #[trigger] signed_decimal(
        v,
    )[i] != '_' by {
        if v < 0 && i > 0 {
            assert(signed_decimal(v)[i] == decimal(magnitude)[i - 1]);
            assert(is_digit(decimal(magnitude)[i - 1]));
        } else if v >= 0 {
            assert(is_digit(decimal(magnitude)[i]));
        }
    }
}

/// Workers with different numbers get different scratch files.
pub proof fn lemma_scratch_names_differ(a: usize, b: usize, suffix: Seq<char>)
    requires
        scratch_name(a, suffix) == scratch_name(b, suffix),
    ensures
        a == b,
{
    let name_a = scratch_name(a, suffix);
    let name_b = scratch_name(b, suffix);
    let digits_a = decimal(a as nat);
    let digits_b = decimal(b as nat);
    assert(name_a.len() == 4 + digits_a.len() + suffix.len());
    assert(name_b.len() == 4 + digits_b.len() + suffix.len());
    assert(name_a.subrange(4, 4 + digits_a.len() as int) =~= digits_a);
    assert(name_b.subrange(4, 4 + digits_b.len() as int) =~= digits_b);
    lemma_decimal_injective(a as nat, b as nat);
}

/// A crash record's name determines the exit code and the disambiguator it
/// was made from: two records share a name only if they share both.
pub proof fn lemma_crash_names_differ(
    code_a: i32,
    tag_a: u32,
    code_b: i32,
    tag_b: u32,
    suffix: Seq<char>,
)
    requires
        crash_name(code_a, tag_a, suffix) == crash_name(code_b, tag_b, suffix),
    ensures
        code_a == code_b,
        tag_a == tag_b,
{
    let name_a = crash_name(code_a, tag_a, suffix);
    let name_b = crash_name(code_b, tag_b, suffix);
    let head_a = signed_decimal(code_a as int);
    let head_b = signed_decimal(code_b as int);
    let tail_a = decimal(tag_a as nat);
    let tail_b = decimal(tag_b as nat);
    lemma_signed_decimal_has_no_underscore(code_a as int);
    lemma_signed_decimal_has_no_underscore(code_b as int);
    assert(name_a.len() == head_a.len() + 1 + tail_a.len() + suffix.len());
    assert(name_b.len() == head_b.len() + 1 + tail_b.len() + suffix.len());
    assert(name_a[head_a.len() as int] == '_');
    assert(name_b[head_b.len() as int] == '_');
    if head_a.len() < head_b.len() {
        assert(name_b[head_a.len() as int] == head_b[head_a.len() as int]);
    } else if head_b.len() < head_a.len() {
        assert(name_a[head_b.len() as int] == head_a[head_b.len() as int]);
    }
    assert(head_a.len() == head_b.len());
    assert(name_a.subrange(0, head_a.len() as int) =~= head_a);
    assert(name_b.subrange(0, head_b.len() as int) =~= head_b);
    lemma_signed_decimal_injective(code_a as int, code_b as int);
    let start: int = head_a.len() as int + 1;
    assert(name_a.subrange(start, start + tail_a.len() as int) =~= tail_a);
    assert(name_b.subrange(start, start + tail_b.len() as int) =~= tail_b);
    lemma_decimal_injective(tag_a as nat, tag_b as nat);
}

proof fn lemma_first_underscore(name: Seq<char>, from: int, at: int)
    requires
        0 <= from <= at < name.len(),
        name[at] == '_',
        forall|i: int| from <= i < at ==> name[i] != '_',
    ensures
        first_underscore(name, from) == at,
    decreases at - from,
{
    if from < at {
        lemma_first_underscore(name, from + 1, at);
    }
}

/// The exit code can be read back off a crash record's name.
pub proof fn lemma_code_part_of_crash_name(exit_code: i32, tag: u32, suffix: Seq<char>)
    ensures
        code_part(crash_name(exit_code, tag, suffix)) == signed_decimal(exit_code as int),
{
    let name = crash_name(exit_code, tag, suffix);
    let head = signed_decimal(exit_code as int);
    lemma_signed_decimal_has_no_underscore(exit_code as int);
    assert(name[head.len() as int] == '_');
    assert forall|i: int| 0 <= i < head.len() implies name[i] != '_' by {
        assert(name[i] == head[i]);
    }
    lemma_first_underscore(name, 0, head.len() as int);
    assert(name.subrange(0, head.len() as int) =~= head);
}

} // verus!
