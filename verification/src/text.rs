//! Character-level helpers shared by the document model and the rules.
use vstd::prelude::*;
use vstd::string::StringExecFns;

verus! {

/// The character for a decimal digit.
pub open spec fn digit_char(d: nat) -> char {
    if d == 0 { '0' }
    else if d == 1 { '1' }
    else if d == 2 { '2' }
    else if d == 3 { '3' }
    else if d == 4 { '4' }
    else if d == 5 { '5' }
    else if d == 6 { '6' }
    else if d == 7 { '7' }
    else if d == 8 { '8' }
    else { '9' }
}

/// The decimal digits of `n`, most significant first, with no leading zero.
pub open spec fn decimal(n: nat) -> Seq<char>
    decreases n,
{
    if n < 10 {
        seq![digit_char(n)]
    } else {
        decimal(n / 10).push(digit_char(n % 10))
    }
}

fn digit(d: u64) -> (c: char)
    requires
        d < 10,
    ensures
        c == digit_char(d as nat),
{
    match d {
        0 => '0',
        1 => '1',
        2 => '2',
        3 => '3',
        4 => '4',
        5 => '5',
        6 => '6',
        7 => '7',
        8 => '8',
        _ => '9',
    }
}

/// Appends one character to a string (`String::push`).
#[verifier::external_body]
pub(crate) fn push_char(text: &mut String, c: char)
    ensures
        final(text)@ == old(text)@.push(c),
{
    text.push(c);
}

/// Appends a string slice.
pub fn push_str(text: &mut String, tail: &str)
    ensures
        final(text)@ == old(text)@ + tail@,
{
    text.append(tail);
}

/// Appends the decimal digits of `n`.
pub fn push_decimal(text: &mut String, n: u64)
    ensures
        final(text)@ == old(text)@ + decimal(n as nat),
    decreases n,
{
    if n >= 10 {
        push_decimal(text, n / 10);
    }
    push_char(text, digit(n % 10));
    assert(final(text)@ =~= old(text)@ + decimal(n as nat));
}

} // verus!

verus! {

/// The characters of `text`, in order.
pub fn chars_of(text: &str) -> (res: Vec<char>)
    ensures
        res@ == text@,
{
    broadcast use vstd::string::group_string_axioms;

    let mut chars = text.chars();
    let mut res: Vec<char> = Vec::new();
    loop
        invariant
            vstd::std_specs::iter::IteratorSpec::obeys_prophetic_iter_laws(&chars),
            res@ + vstd::std_specs::iter::IteratorSpec::remaining(&chars) == text@,
            vstd::std_specs::iter::IteratorSpec::decrease(&chars) is Some,
        decreases vstd::std_specs::iter::IteratorSpec::decrease(&chars)->0,
    {
        match chars.next() {
            Some(c) => {
                res.push(c);
            },
            None => {
                assert(res@ =~= text@);
                return res;
            },
        }
    }
}

} // verus!

verus! {

/// Whether `c` has the Unicode `White_Space` property, which is what `char::is_whitespace` and
/// `str::trim` test: U+0009 to U+000D, U+0020, U+0085, U+00A0, U+1680, U+2000 to U+200A,
/// U+2028, U+2029, U+202F, U+205F, and U+3000.
pub open spec fn is_white_space(c: char) -> bool {
    let u = c as u32;
    ||| 0x9 <= u <= 0xd
    ||| u == 0x20
    ||| u == 0x85
    ||| u == 0xa0
    ||| u == 0x1680
    ||| 0x2000 <= u <= 0x200a
    ||| u == 0x2028
    ||| u == 0x2029
    ||| u == 0x202f
    ||| u == 0x205f
    ||| u == 0x3000
}

/// Whether `c` is Unicode whitespace.
pub fn is_whitespace(c: char) -> (res: bool)
    ensures
        res == is_white_space(c),
{
    let u = c as u32;
    (0x9 <= u && u <= 0xd) || u == 0x20 || u == 0x85 || u == 0xa0 || u == 0x1680 || (0x2000 <= u
        && u <= 0x200a) || u == 0x2028 || u == 0x2029 || u == 0x202f || u == 0x205f || u == 0x3000
}

/// Whether every character of `s` is whitespace (so `s.trim()` is empty).
pub open spec fn all_white(s: Seq<char>) -> bool {
    forall|i: int| 0 <= i < s.len() ==> is_white_space(#[trigger] s[i])
}

/// `s` without its trailing whitespace, as `str::trim_end` gives it.
pub open spec fn trim_end(s: Seq<char>) -> Seq<char>
    decreases s.len(),
{
    if s.len() > 0 && is_white_space(s.last()) {
        trim_end(s.drop_last())
    } else {
        s
    }
}

/// `s` without its leading whitespace, as `str::trim_start` gives it.
pub open spec fn trim_start(s: Seq<char>) -> Seq<char>
    decreases s.len(),
{
    if s.len() > 0 && is_white_space(s[0]) {
        trim_start(s.drop_first())
    } else {
        s
    }
}

/// `s` without leading or trailing whitespace, as `str::trim` gives it.
pub open spec fn trim(s: Seq<char>) -> Seq<char> {
    trim_end(trim_start(s))
}

/// Whether every character of `chars` is whitespace.
pub fn is_all_whitespace(chars: &Vec<char>) -> (res: bool)
    ensures
        res == all_white(chars@),
{
    let mut i: usize = 0;
    while i < chars.len()
        invariant
            i <= chars@.len(),
            forall|j: int| 0 <= j < i ==> is_white_space(#[trigger] chars@[j]),
        decreases chars@.len() - i,
    {
        if !is_whitespace(chars[i]) {
            return false;
        }
        i = i + 1;
    }
    true
}

/// Trimming the end removes a suffix of whitespace and leaves a non-whitespace last character.
pub proof fn lemma_trim_end(s: Seq<char>)
    ensures
        trim_end(s) == s.take(trim_end(s).len() as int),
        trim_end(s).len() <= s.len(),
        trim_end(s).len() > 0 ==> !is_white_space(trim_end(s).last()),
        forall|i: int| trim_end(s).len() <= i < s.len() ==> is_white_space(#[trigger] s[i]),
    decreases s.len(),
{
    if s.len() > 0 && is_white_space(s.last()) {
        lemma_trim_end(s.drop_last());
        assert(trim_end(s) =~= s.take(trim_end(s).len() as int));
        assert forall|i: int| trim_end(s).len() <= i < s.len() implies is_white_space(#[trigger] s[i]) by {
            if i < s.len() - 1 {
                assert(s[i] == s.drop_last()[i]);
            }
        }
    } else {
        assert(s =~= s.take(s.len() as int));
    }
}

/// Trimming the start removes a prefix of whitespace and leaves a non-whitespace first character.
pub proof fn lemma_trim_start(s: Seq<char>)
    ensures
        trim_start(s) == s.skip(s.len() - trim_start(s).len()),
        trim_start(s).len() <= s.len(),
        trim_start(s).len() > 0 ==> !is_white_space(trim_start(s)[0]),
        forall|i: int| 0 <= i < s.len() - trim_start(s).len() ==> is_white_space(#[trigger] s[i]),
    decreases s.len(),
{
    if s.len() > 0 && is_white_space(s[0]) {
        lemma_trim_start(s.drop_first());
        assert(trim_start(s) =~= s.skip(s.len() - trim_start(s).len()));
        assert forall|i: int| 0 <= i < s.len() - trim_start(s).len() implies is_white_space(#[trigger] s[i]) by {
            if i > 0 {
                assert(s[i] == s.drop_first()[i - 1]);
            }
        }
    } else {
        assert(s =~= s.skip(0));
    }
}

/// The length of `chars` once trailing whitespace is removed.
pub fn trimmed_end_len(chars: &Vec<char>, start: usize) -> (res: usize)
    requires
        start <= chars@.len(),
    ensures
        start <= res <= chars@.len(),
        trim_end(chars@.subrange(start as int, chars@.len() as int)) == chars@.subrange(start as int, res as int),
{
    let ghost s = chars@.subrange(start as int, chars@.len() as int);
    let mut end = chars.len();
    while end > start && is_whitespace(chars[end - 1])
        invariant
            start <= end <= chars@.len(),
            trim_end(s) == trim_end(chars@.subrange(start as int, end as int)),
        decreases end,
    {
        assert(chars@.subrange(start as int, end as int).drop_last() =~= chars@.subrange(start as int, end - 1));
        end = end - 1;
    }
    proof {
        let t = chars@.subrange(start as int, end as int);
        if t.len() > 0 {
            assert(t.last() == chars@[end - 1]);
        }
        assert(trim_end(t) == t);
    }
    end
}

/// The index of the first character of `chars` at or after `start` that is not whitespace, or
/// the length when there is none.
pub fn trimmed_start_index(chars: &Vec<char>, start: usize, end: usize) -> (res: usize)
    requires
        start <= end <= chars@.len(),
    ensures
        start <= res <= end,
        trim_start(chars@.subrange(start as int, end as int)) == chars@.subrange(res as int, end as int),
{
    let ghost s = chars@.subrange(start as int, end as int);
    let mut i = start;
    while i < end && is_whitespace(chars[i])
        invariant
            start <= i <= end,
            end <= chars@.len(),
            trim_start(s) == trim_start(chars@.subrange(i as int, end as int)),
        decreases end - i,
    {
        assert(chars@.subrange(i as int, end as int).drop_first() =~= chars@.subrange(i + 1, end as int));
        i = i + 1;
    }
    proof {
        let t = chars@.subrange(i as int, end as int);
        if t.len() > 0 {
            assert(t[0] == chars@[i as int]);
        }
        assert(trim_start(t) == t);
    }
    i
}

} // verus!
