//! Character-level helpers shared by the path and page scanners.

use vstd::prelude::*;
use vstd::string::*;

verus! {

/// `pattern` stands in `text` at index `at`.
pub open spec fn occurs_at(text: Seq<char>, at: int, pattern: Seq<char>) -> bool {
    &&& 0 <= at
    &&& at + pattern.len() <= text.len()
    &&& text.subrange(at, at + pattern.len()) == pattern
}

/// The first index at or after `from` that holds `stop`; the length of
/// `text` when there is none.
pub open spec fn index_of_char(text: Seq<char>, from: int, stop: char) -> int
    decreases text.len() - from,
{
    if from < 0 || from >= text.len() {
        text.len() as int
    } else if text[from] == stop {
        from
    } else {
        index_of_char(text, from + 1, stop)
    }
}

/// The first index at or after `from` where `pattern` stands; the length
/// of `text` when there is none.
pub open spec fn index_of(text: Seq<char>, from: int, pattern: Seq<char>) -> int
    decreases text.len() - from,
{
    if from < 0 || from >= text.len() {
        text.len() as int
    } else if occurs_at(text, from, pattern) {
        from
    } else {
        index_of(text, from + 1, pattern)
    }
}

/// A search ends at or after its start, within the text, and where it
/// ends before the end of the text, the pattern stands.
pub proof fn lemma_index_of_bounds(text: Seq<char>, from: int, pattern: Seq<char>)
    requires
        0 <= from <= text.len(),
    ensures
        from <= index_of(text, from, pattern) <= text.len(),
        index_of(text, from, pattern) < text.len() ==> occurs_at(
            text,
            index_of(text, from, pattern),
            pattern,
        ),
    decreases text.len() - from,
{
    if from < text.len() && !occurs_at(text, from, pattern) {
        lemma_index_of_bounds(text, from + 1, pattern);
    }
}

/// The characters of `s`, one by one.
pub fn chars_of(s: &str) -> (v: Vec<char>)
    ensures
        v@ == s@,
{
    let mut v: Vec<char> = Vec::new();
    for c in it: s.chars()
        invariant
            it.seq() == s@,
            v@ == s@.take(it.index() as int),
    {
        v.push(c);
        assert(v@ =~= s@.take(it.index() + 1));
    }
    assert(s@.take(s@.len() as int) =~= s@);
    v
}

/// Tests whether `pattern` stands in `text` at index `at`.
pub fn has_at(text: &Vec<char>, at: usize, pattern: &Vec<char>) -> (b: bool)
    ensures
        b == occurs_at(text@, at as int, pattern@),
{
    if at > text.len() || pattern.len() > text.len() - at {
        return false;
    }
    let mut i: usize = 0;
    while i < pattern.len()
        invariant
            at + pattern.len() <= text.len(),
            i <= pattern.len(),
            forall|k: int| 0 <= k < i ==> text@[at + k] == pattern@[k],
        decreases pattern.len() - i,
    {
        if text[at + i] != pattern[i] {
            proof {
                let window = text@.subrange(at as int, at + pattern.len());
                assert(window[i as int] == text@[at + i]);
            }
            return false;
        }
        i = i + 1;
    }
    assert(text@.subrange(at as int, at + pattern.len()) =~= pattern@);
    true
}

/// Finds the first index at or after `from` that holds `stop`.
pub fn find_char(text: &Vec<char>, from: usize, stop: char) -> (i: usize)
    requires
        from <= text.len(),
    ensures
        i == index_of_char(text@, from as int, stop),
        from <= i <= text.len(),
        i < text.len() ==> text@[i as int] == stop,
{
    let mut i: usize = from;
    while i < text.len() && text[i] != stop
        invariant
            from <= i <= text.len(),
            index_of_char(text@, i as int, stop) == index_of_char(text@, from as int, stop),
        decreases text.len() - i,
    {
        i = i + 1;
    }
    i
}

/// Finds the first index at or after `from` where `pattern` stands.
pub fn find(text: &Vec<char>, from: usize, pattern: &Vec<char>) -> (i: usize)
    requires
        from <= text.len(),
    ensures
        i == index_of(text@, from as int, pattern@),
        from <= i <= text.len(),
        i < text.len() ==> occurs_at(text@, i as int, pattern@),
{
    let mut i: usize = from;
    while i < text.len()
        invariant
            from <= i <= text.len(),
            index_of(text@, i as int, pattern@) == index_of(text@, from as int, pattern@),
        decreases text.len() - i,
    {
        if has_at(text, i, pattern) {
            return i;
        }
        i = i + 1;
    }
    i
}

/// The character that stands for a digit.
pub open spec fn digit_char(digit: nat) -> char {
    if digit == 0 {
        '0'
    } else if digit == 1 {
        '1'
    } else if digit == 2 {
        '2'
    } else if digit == 3 {
        '3'
    } else if digit == 4 {
        '4'
    } else if digit == 5 {
        '5'
    } else if digit == 6 {
        '6'
    } else if digit == 7 {
        '7'
    } else if digit == 8 {
        '8'
    } else {
        '9'
    }
}

/// A number in decimal, without leading zeros.
pub open spec fn decimal_of(n: nat) -> Seq<char>
    decreases n,
{
    if n < 10 {
        seq![digit_char(n)]
    } else {
        decimal_of(n / 10).push(digit_char(n % 10))
    }
}

fn digit_text(digit: u32) -> (text: &'static str)
    requires
        digit < 10,
    ensures
        text@ == seq![digit_char(digit as nat)],
{
    proof {
        reveal_strlit("0");
        reveal_strlit("1");
        reveal_strlit("2");
        reveal_strlit("3");
        reveal_strlit("4");
        reveal_strlit("5");
        reveal_strlit("6");
        reveal_strlit("7");
        reveal_strlit("8");
        reveal_strlit("9");
    }
    let text = if digit == 0 {
        "0"
    } else if digit == 1 {
        "1"
    } else if digit == 2 {
        "2"
    } else if digit == 3 {
        "3"
    } else if digit == 4 {
        "4"
    } else if digit == 5 {
        "5"
    } else if digit == 6 {
        "6"
    } else if digit == 7 {
        "7"
    } else if digit == 8 {
        "8"
    } else {
        "9"
    };
    assert(text@ =~= seq![digit_char(digit as nat)]);
    text
}

/// Writes a number in decimal.
pub fn decimal(n: u32) -> (text: String)
    ensures
        text@ == decimal_of(n as nat),
    decreases n,
{
    if n < 10 {
        String::from_str(digit_text(n))
    } else {
        let mut text = decimal(n / 10);
        text.append(digit_text(n % 10));
        assert(text@ =~= decimal_of(n as nat));
        text
    }
}

} // verus!
