//! Reading one item's value out of a page reply.
//!
//! A page is a run of entries of the shape
//! `<item id='…'><name>…</name><value>…</value></item>`. The value of an
//! entry starts with a token, either a decimal number or the placeholder
//! `---` that the device shows when it has no reading, and may go on with a
//! unit, which is ignored.

use vstd::prelude::*;
use vstd::string::*;
use crate::error::{Error, ErrorView};
use crate::text::{chars_of, find_char, has_at, index_of_char, occurs_at};

verus! {

/// What the device reported for one item.
#[derive(Debug)]
pub enum Reading {
    /// The placeholder: the device has no reading. It counts as
    /// [`Number::zero`](crate::model::Number::zero).
    Absent,
    /// A decimal number, as the device wrote it.
    Number(String),
}

/// A [`Reading`] with its text as a character sequence.
pub enum ReadingView {
    Absent,
    Number(Seq<char>),
}

impl View for Reading {
    type V = ReadingView;

    open spec fn view(&self) -> ReadingView {
        match self {
            Reading::Absent => ReadingView::Absent,
            Reading::Number(token) => ReadingView::Number(token@),
        }
    }
}

/// How an entry begins, up to its identifier.
pub open spec fn entry_open() -> Seq<char> {
    "<item id='"@
}

/// What stands between an entry's identifier and its name.
pub open spec fn name_open() -> Seq<char> {
    "'><name>"@
}

/// What stands between an entry's name and its value.
pub open spec fn value_open() -> Seq<char> {
    "</name><value>"@
}

/// How an entry ends.
pub open spec fn entry_close() -> Seq<char> {
    "</value></item>"@
}

/// The token that stands for "no reading".
pub open spec fn placeholder() -> Seq<char> {
    "---"@
}

pub open spec fn is_digit(c: char) -> bool {
    '0' <= c && c <= '9'
}

/// A character that a number token may hold after its sign.
pub open spec fn is_number_char(c: char) -> bool {
    is_digit(c) || c == '.'
}

/// The first index at or after `from` that holds no number character.
pub open spec fn number_run_end(text: Seq<char>, from: int) -> int
    decreases text.len() - from,
{
    if from < 0 || from >= text.len() {
        text.len() as int
    } else if !is_number_char(text[from]) {
        from
    } else {
        number_run_end(text, from + 1)
    }
}

/// Where the value of the entry that starts at `at` begins, if an entry
/// named `label` starts there. The identifier runs up to the first quote.
pub open spec fn entry_value_start(page: Seq<char>, label: Seq<char>, at: int) -> Option<int> {
    let id_end = index_of_char(page, at + entry_open().len(), '\'');
    let name_start = id_end + name_open().len();
    let name_end = name_start + label.len();
    if occurs_at(page, at, entry_open()) && occurs_at(page, id_end, name_open()) && occurs_at(
        page,
        name_start,
        label,
    ) && occurs_at(page, name_end, value_open()) {
        Some(name_end + value_open().len())
    } else {
        None
    }
}

/// Where the token that starts at `start` ends: behind the placeholder, or
/// behind the longest run of digits and points with an optional minus sign
/// before it. It is `start` itself when no token stands there.
pub open spec fn token_end(page: Seq<char>, start: int) -> int {
    if occurs_at(page, start, placeholder()) {
        start + placeholder().len()
    } else {
        let digits = if 0 <= start < page.len() && page[start] == '-' {
            start + 1
        } else {
            start
        };
        let end = number_run_end(page, digits);
        if 0 <= start && digits < end {
            end
        } else {
            start
        }
    }
}

/// The token of the entry named `label` that starts at `at`: `None` unless
/// a whole entry stands there, with a token at the head of its value and
/// nothing but a unit (any text without `<`) between token and end.
pub open spec fn entry_token(page: Seq<char>, label: Seq<char>, at: int) -> Option<Seq<char>> {
    match entry_value_start(page, label, at) {
        None => None,
        Some(start) => {
            let end = token_end(page, start);
            let close = index_of_char(page, end, '<');
            if start < end && occurs_at(page, close, entry_close()) {
                Some(page.subrange(start, end))
            } else {
                None
            }
        },
    }
}

/// The entry at `at` is the only entry for `label` on the page.
pub open spec fn sole_entry(page: Seq<char>, label: Seq<char>, at: int) -> bool {
    &&& 0 <= at < page.len()
    &&& entry_token(page, label, at) is Some
    &&& forall|other: int|
        0 <= other < page.len() && (#[trigger] entry_token(page, label, other)) is Some ==> other
            == at
}

/// A token without its minus sign, if it has one.
pub open spec fn unsigned_part(token: Seq<char>) -> Seq<char> {
    if token.len() > 0 && token[0] == '-' {
        token.skip(1)
    } else {
        token
    }
}

/// A decimal number: an optional minus sign, then digits with at most one
/// point among them, and at least one digit.
pub open spec fn is_decimal(token: Seq<char>) -> bool {
    let body = unsigned_part(token);
    &&& forall|i: int| 0 <= i < body.len() ==> is_number_char(#[trigger] body[i])
    &&& exists|i: int| 0 <= i < body.len() && is_digit(#[trigger] body[i])
    &&& forall|i: int, j: int|
        0 <= i < j < body.len() ==> !(#[trigger] body[i] == '.' && #[trigger] body[j] == '.')
}

/// What a token means for the item `label`: the placeholder is a missing
/// reading, a decimal number is itself, anything else is an error that
/// names item and token.
pub open spec fn reading_of(label: Seq<char>, token: Seq<char>) -> Result<ReadingView, ErrorView> {
    if token == placeholder() {
        Ok(ReadingView::Absent)
    } else if is_decimal(token) {
        Ok(ReadingView::Number(token))
    } else {
        Err(ErrorView::ValueParseError { item: label, token: token })
    }
}

/// The reading of the item `label` on `page`: that of its only entry. A
/// page with no entry for it, or with several, has none.
#[verifier::opaque]
pub open spec fn extract(label: Seq<char>, page: Seq<char>) -> Result<ReadingView, ErrorView> {
    if exists|at: int| sole_entry(page, label, at) {
        let at = choose|at: int| sole_entry(page, label, at);
        reading_of(label, entry_token(page, label, at).unwrap())
    } else {
        Err(ErrorView::ItemNotFound(label))
    }
}

/// A result of this module says what `expected` says.
pub open spec fn reading_result_is(
    result: Result<Reading, Error>,
    expected: Result<ReadingView, ErrorView>,
) -> bool {
    match result {
        Ok(reading) => expected == Ok::<ReadingView, ErrorView>(reading@),
        Err(error) => expected == Err::<ReadingView, ErrorView>(error@),
    }
}

fn number_run(text: &Vec<char>, from: usize) -> (i: usize)
    requires
        from <= text.len(),
    ensures
        i == number_run_end(text@, from as int),
        from <= i <= text.len(),
{
    let mut i: usize = from;
    while i < text.len() && ((text[i] >= '0' && text[i] <= '9') || text[i] == '.')
        invariant
            from <= i <= text.len(),
            number_run_end(text@, i as int) == number_run_end(text@, from as int),
        decreases text.len() - i,
    {
        i = i + 1;
    }
    i
}

/// Tests a token for the shape of a decimal number.
pub fn check_decimal(token: &Vec<char>) -> (ok: bool)
    ensures
        ok == is_decimal(token@),
{
    let first: usize = if token.len() > 0 && token[0] == '-' {
        1
    } else {
        0
    };
    let ghost body = token@.skip(first as int);
    assert(token@.skip(0) =~= token@);
    assert(body == unsigned_part(token@));
    let mut digit_at: Option<usize> = None;
    let mut point_at: Option<usize> = None;
    let mut i: usize = first;
    while i < token.len()
        invariant
            first <= i <= token.len(),
            body == token@.skip(first as int),
            body == unsigned_part(token@),
            forall|k: int| 0 <= k < i - first ==> is_number_char(#[trigger] body[k]),
            match digit_at {
                Some(d) => first <= d < i && is_digit(token@[d as int]),
                None => forall|k: int| 0 <= k < i - first ==> !is_digit(#[trigger] body[k]),
            },
            match point_at {
                Some(p) => first <= p < i && token@[p as int] == '.' && forall|k: int|
                    0 <= k < i - first && #[trigger] body[k] == '.' ==> k == p - first,
                None => forall|k: int| 0 <= k < i - first ==> #[trigger] body[k] != '.',
            },
        decreases token.len() - i,
    {
        let c = token[i];
        assert(body[i - first] == c);
        if c >= '0' && c <= '9' {
            digit_at = Some(i);
        } else if c == '.' {
            if point_at.is_some() {
                proof {
                    let p = point_at.unwrap();
                    assert(body[p - first] == '.');
                    assert(body[i - first] == '.');
                }
                return false;
            }
            point_at = Some(i);
        } else {
            return false;
        }
        i = i + 1;
    }
    match digit_at {
        Some(d) => {
            assert(is_digit(body[d - first]));
            true
        },
        None => false,
    }
}

/// The fixed texts of the page grammar, as characters.
struct Marks {
    head: Vec<char>,
    name: Vec<char>,
    value: Vec<char>,
    tail: Vec<char>,
    dashes: Vec<char>,
}

impl Marks {
    spec fn wf(&self) -> bool {
        &&& self.head@ == entry_open()
        &&& self.name@ == name_open()
        &&& self.value@ == value_open()
        &&& self.tail@ == entry_close()
        &&& self.dashes@ == placeholder()
    }

    fn new() -> (marks: Marks)
        ensures
            marks.wf(),
    {
        Marks {
            head: chars_of("<item id='"),
            name: chars_of("'><name>"),
            value: chars_of("</name><value>"),
            tail: chars_of("</value></item>"),
            dashes: chars_of("---"),
        }
    }
}

/// The token of the entry for `label` that starts at `at`, as the range of
/// indices that it fills.
fn token_at(
    page: &Vec<char>,
    label: &Vec<char>,
    at: usize,
    marks: &Marks,
) -> (found: Option<(usize, usize)>)
    requires
        marks.wf(),
    ensures
        match found {
            Some((start, end)) => start < end <= page.len() && entry_token(page@, label@, at as int)
                == Some(page@.subrange(start as int, end as int)),
            None => entry_token(page@, label@, at as int) is None,
        },
{
    let length: usize = page.len();
    if at >= length || !has_at(page, at, &marks.head) {
        return None;
    }
    let id_end: usize = find_char(page, at + marks.head.len(), '\'');
    if !has_at(page, id_end, &marks.name) {
        return None;
    }
    let name_start: usize = id_end + marks.name.len();
    if !has_at(page, name_start, label) {
        return None;
    }
    let name_end: usize = name_start + label.len();
    if !has_at(page, name_end, &marks.value) {
        return None;
    }
    let start: usize = name_end + marks.value.len();
    assert(entry_value_start(page@, label@, at as int) == Some(start as int));
    let end: usize = if has_at(page, start, &marks.dashes) {
        start + marks.dashes.len()
    } else {
        let digits: usize = if start < page.len() && page[start] == '-' {
            start + 1
        } else {
            start
        };
        let run: usize = number_run(page, digits);
        if digits < run {
            run
        } else {
            start
        }
    };
    assert(end == token_end(page@, start as int));
    if end <= start {
        return None;
    }
    let tail: usize = find_char(page, end, '<');
    if !has_at(page, tail, &marks.tail) {
        return None;
    }
    Some((start, end))
}

/// Reads a token that was found for `item`: the placeholder gives a missing
/// reading, a decimal number gives itself, and any other token is refused
/// with an error that names both.
pub fn read_token(item: &str, token: &str) -> (result: Result<Reading, Error>)
    ensures
        reading_result_is(result, reading_of(item@, token@)),
{
    let chars = chars_of(token);
    let dashes = chars_of("---");
    if chars.len() == dashes.len() && has_at(&chars, 0, &dashes) {
        assert(chars@.subrange(0, chars@.len() as int) =~= chars@);
        return Ok(Reading::Absent);
    }
    assert(token@ != placeholder()) by {
        if token@ == placeholder() {
            assert(chars@.subrange(0, chars@.len() as int) =~= chars@);
        }
    }
    if check_decimal(&chars) {
        Ok(Reading::Number(token.to_owned()))
    } else {
        Err(Error::ValueParseError { item: item.to_owned(), token: token.to_owned() })
    }
}

/// Looks up the item named `item` on the page `response_message` and reads
/// its value.
///
/// The page must hold exactly one entry whose name is `item`, letter for
/// letter, and whose value starts with a token; a unit behind the token is
/// dropped. With no such entry, or with more than one, the item counts as
/// not found.
pub fn get_item_from_response(item: &str, response_message: &str) -> (result: Result<
    Reading,
    Error,
>)
    ensures
        reading_result_is(result, extract(item@, response_message@)),
{
    let page = chars_of(response_message);
    let label = chars_of(item);
    let marks = Marks::new();
    let mut first: Option<(usize, usize, usize)> = None;
    let mut several: bool = false;
    let ghost mut second: int = 0;
    let mut at: usize = 0;
    while at < page.len() && !several
        invariant
            at <= page.len(),
            page@ == response_message@,
            label@ == item@,
            marks.wf(),
            match first {
                Some((place, start, end)) => {
                    &&& place < at
                    &&& start < end <= page.len()
                    &&& entry_token(page@, label@, place as int) == Some(
                        page@.subrange(start as int, end as int),
                    )
                    &&& !several ==> forall|other: int|
                        0 <= other < at && (#[trigger] entry_token(page@, label@, other))
                            is Some ==> other == place
                    &&& several ==> 0 <= second < page.len() && second != place && entry_token(
                        page@,
                        label@,
                        second,
                    ) is Some
                },
                None => !several && forall|other: int|
                    0 <= other < at ==> (#[trigger] entry_token(page@, label@, other)) is None,
            },
        decreases page.len() - at + (if several { 0int } else { 1int }),
    {
        match token_at(&page, &label, at, &marks) {
            Some((start, end)) => {
                if first.is_some() {
                    several = true;
                    proof {
                        second = at as int;
                    }
                } else {
                    first = Some((at, start, end));
                    at = at + 1;
                }
            },
            None => {
                at = at + 1;
            },
        }
    }
    match first {
        Some((place, start, end)) => {
            if several {
                proof {
                    lemma_extract_two_entries(page@, label@, place as int, second);
                }
                Err(Error::ItemNotFound(item.to_owned()))
            } else {
                proof {
                    lemma_extract_sole_entry(page@, label@, place as int);
                }
                let token = response_message.substring_char(start, end);
                read_token(item, token)
            }
        },
        None => {
            proof {
                lemma_extract_no_entry(page@, label@);
            }
            Err(Error::ItemNotFound(item.to_owned()))
        },
    }
}

/// Where a page holds exactly one entry for an item, the item's reading
/// is what that entry's token says.
pub proof fn lemma_extract_sole_entry(page: Seq<char>, label: Seq<char>, at: int)
    requires
        sole_entry(page, label, at),
    ensures
        extract(label, page) == reading_of(label, entry_token(page, label, at)->Some_0),
{
    reveal(extract);
    let chosen = choose|p: int| sole_entry(page, label, p);
    assert(entry_token(page, label, chosen) is Some);
}

/// Where a page holds no entry for an item, the item is not found.
pub proof fn lemma_extract_no_entry(page: Seq<char>, label: Seq<char>)
    requires
        forall|at: int| 0 <= at < page.len() ==> (#[trigger] entry_token(page, label, at)) is None,
    ensures
        extract(label, page) == Err::<ReadingView, ErrorView>(ErrorView::ItemNotFound(label)),
{
    reveal(extract);
}

/// Where a page holds two entries for an item, the item is not found.
pub proof fn lemma_extract_two_entries(page: Seq<char>, label: Seq<char>, one: int, other: int)
    requires
        0 <= one < page.len(),
        0 <= other < page.len(),
        one != other,
        entry_token(page, label, one) is Some,
        entry_token(page, label, other) is Some,
    ensures
        extract(label, page) == Err::<ReadingView, ErrorView>(ErrorView::ItemNotFound(label)),
{
    reveal(extract);
    if exists|p: int| sole_entry(page, label, p) {
        let p = choose|p: int| sole_entry(page, label, p);
        assert(one == p);
        assert(other == p);
    }
}

/// The placeholder is read as a missing reading, never as an error.
pub proof fn lemma_placeholder_is_read(label: Seq<char>)
    ensures
        reading_of(label, placeholder()) == Ok::<ReadingView, ErrorView>(ReadingView::Absent),
{
}

/// A token as an entry's value can start with: the placeholder, or digits
/// and points with an optional minus sign before them.
pub open spec fn is_token(token: Seq<char>) -> bool {
    ||| token == placeholder()
    ||| {
        &&& unsigned_part(token).len() > 0
        &&& forall|i: int|
            0 <= i < unsigned_part(token).len() ==> is_number_char(
                #[trigger] unsigned_part(token)[i],
            )
    }
}

/// An entry, written out.
pub open spec fn entry_text(
    id: Seq<char>,
    label: Seq<char>,
    token: Seq<char>,
    unit: Seq<char>,
) -> Seq<char> {
    entry_open() + id + name_open() + label + value_open() + token + unit + entry_close()
}

proof fn lemma_index_of_char_run(text: Seq<char>, from: int, to: int, stop: char)
    requires
        0 <= from <= to < text.len(),
        forall|i: int| from <= i < to ==> text[i] != stop,
        text[to] == stop,
    ensures
        index_of_char(text, from, stop) == to,
    decreases to - from,
{
    if from < to {
        lemma_index_of_char_run(text, from + 1, to, stop);
    }
}

proof fn lemma_number_run(text: Seq<char>, from: int, to: int)
    requires
        0 <= from <= to < text.len(),
        forall|i: int| from <= i < to ==> is_number_char(text[i]),
        !is_number_char(text[to]),
    ensures
        number_run_end(text, from) == to,
    decreases to - from,
{
    if from < to {
        lemma_number_run(text, from + 1, to);
    }
}

proof fn lemma_char_of_part(text: Seq<char>, at: int, part: Seq<char>, i: int)
    requires
        occurs_at(text, at, part),
        0 <= i < part.len(),
    ensures
        text[at + i] == part[i],
{
    assert(text.subrange(at, at + part.len())[i] == text[at + i]);
}

/// The parts of an entry stand on `page` one behind the other, from `at`.
spec fn laid_out(
    page: Seq<char>,
    at: int,
    id: Seq<char>,
    label: Seq<char>,
    token: Seq<char>,
    unit: Seq<char>,
) -> bool {
    let id_start = at + entry_open().len();
    let id_end = id_start + id.len();
    let name_start = id_end + name_open().len();
    let name_end = name_start + label.len();
    let start = name_end + value_open().len();
    let end = start + token.len();
    let close = end + unit.len();
    &&& occurs_at(page, at, entry_open())
    &&& occurs_at(page, id_start, id)
    &&& occurs_at(page, id_end, name_open())
    &&& occurs_at(page, name_start, label)
    &&& occurs_at(page, name_end, value_open())
    &&& occurs_at(page, start, token)
    &&& occurs_at(page, end, unit)
    &&& occurs_at(page, close, entry_close())
}

proof fn lemma_laid_out(
    before: Seq<char>,
    id: Seq<char>,
    label: Seq<char>,
    token: Seq<char>,
    unit: Seq<char>,
    behind: Seq<char>,
)
    ensures
        laid_out(
            before + entry_text(id, label, token, unit) + behind,
            before.len() as int,
            id,
            label,
            token,
            unit,
        ),
{
    let page = before + entry_text(id, label, token, unit) + behind;
    let at = before.len() as int;
    let id_start = at + entry_open().len();
    let id_end = id_start + id.len();
    let name_start = id_end + name_open().len();
    let name_end = name_start + label.len();
    let start = name_end + value_open().len();
    let end = start + token.len();
    let close = end + unit.len();
    assert(page.subrange(at, id_start) =~= entry_open());
    assert(page.subrange(id_start, id_end) =~= id);
    assert(page.subrange(id_end, name_start) =~= name_open());
    assert(page.subrange(name_start, name_end) =~= label);
    assert(page.subrange(name_end, start) =~= value_open());
    assert(page.subrange(start, end) =~= token);
    assert(page.subrange(end, close) =~= unit);
    assert(page.subrange(close, close + entry_close().len()) =~= entry_close());
}

proof fn lemma_run_before_mark(
    page: Seq<char>,
    from: int,
    run: Seq<char>,
    mark: Seq<char>,
    stop: char,
)
    requires
        occurs_at(page, from, run),
        occurs_at(page, from + run.len(), mark),
        mark.len() > 0,
        mark[0] == stop,
        forall|i: int| 0 <= i < run.len() ==> run[i] != stop,
    ensures
        index_of_char(page, from, stop) == from + run.len(),
{
    let to = from + run.len();
    lemma_char_of_part(page, to, mark, 0);
    assert forall|i: int| from <= i < to implies page[i] != stop by {
        lemma_char_of_part(page, from, run, i - from);
    }
    lemma_index_of_char_run(page, from, to, stop);
}

proof fn lemma_token_end(page: Seq<char>, start: int, token: Seq<char>, unit: Seq<char>)
    requires
        occurs_at(page, start, token),
        occurs_at(page, start + token.len(), unit),
        occurs_at(page, start + token.len() + unit.len(), entry_close()),
        is_token(token),
        token != placeholder() && unit.len() > 0 ==> !is_number_char(unit[0]),
    ensures
        token_end(page, start) == start + token.len(),
        token.len() > 0,
{
    reveal_strlit("</value></item>");
    reveal_strlit("---");
    let end = start + token.len();
    if token == placeholder() {
    } else {
        let body = unsigned_part(token);
        let digits = if token[0] == '-' {
            start + 1
        } else {
            start
        };
        lemma_char_of_part(page, start, token, 0);
        assert forall|i: int| digits <= i < end implies is_number_char(page[i]) by {
            lemma_char_of_part(page, start, token, i - start);
            assert(body[i - digits] == token[i - start]);
        }
        assert(!is_number_char(page[end])) by {
            if unit.len() > 0 {
                lemma_char_of_part(page, end, unit, 0);
            } else {
                lemma_char_of_part(page, end, entry_close(), 0);
            }
        }
        lemma_number_run(page, digits, end);
        assert(!occurs_at(page, start, placeholder())) by {
            if occurs_at(page, start, placeholder()) {
                lemma_char_of_part(page, start, placeholder(), 0);
                lemma_char_of_part(page, start, placeholder(), 1);
                if token[0] == '-' {
                    assert(is_number_char(body[0]));
                    lemma_char_of_part(page, start, token, 1);
                } else {
                    assert(is_number_char(body[0]));
                }
            }
        }
    }
}

/// An entry that is written out on a page is read as an entry, and its
/// token is the one that was written: the unit behind it is dropped.
///
/// The identifier holds no quote and the unit no `<`; a unit behind a
/// number does not start with a digit or a point, which would be read as
/// part of the number.
pub proof fn lemma_entry_is_read(
    before: Seq<char>,
    id: Seq<char>,
    label: Seq<char>,
    token: Seq<char>,
    unit: Seq<char>,
    behind: Seq<char>,
)
    requires
        forall|i: int| 0 <= i < id.len() ==> id[i] != '\'',
        is_token(token),
        forall|i: int| 0 <= i < unit.len() ==> unit[i] != '<',
        token != placeholder() && unit.len() > 0 ==> !is_number_char(unit[0]),
    ensures
        entry_token(
            before + entry_text(id, label, token, unit) + behind,
            label,
            before.len() as int,
        ) == Some(token),
{
    let page = before + entry_text(id, label, token, unit) + behind;
    let at = before.len() as int;
    let id_start = at + entry_open().len();
    let id_end = id_start + id.len();
    let start = id_end + name_open().len() + label.len() + value_open().len();
    let end = start + token.len();
    lemma_laid_out(before, id, label, token, unit, behind);
    assert(index_of_char(page, id_start, '\'') == id_end) by {
        reveal_strlit("'><name>");
        lemma_run_before_mark(page, id_start, id, name_open(), '\'');
    }
    assert(entry_value_start(page, label, at) == Some(start));
    lemma_token_end(page, start, token, unit);
    assert(index_of_char(page, end, '<') == end + unit.len()) by {
        reveal_strlit("</value></item>");
        lemma_run_before_mark(page, end, unit, entry_close(), '<');
    }
    assert(page.subrange(start, end) == token);
}

/// A page that holds one entry for an item, and no other, gives the
/// item's token as its reading, with the unit dropped.
pub proof fn lemma_page_with_one_entry(
    before: Seq<char>,
    id: Seq<char>,
    label: Seq<char>,
    token: Seq<char>,
    unit: Seq<char>,
    behind: Seq<char>,
)
    requires
        forall|i: int| 0 <= i < id.len() ==> id[i] != '\'',
        is_token(token),
        forall|i: int| 0 <= i < unit.len() ==> unit[i] != '<',
        token != placeholder() && unit.len() > 0 ==> !is_number_char(unit[0]),
        forall|other: int|
            other != before.len() ==> (#[trigger] entry_token(
                before + entry_text(id, label, token, unit) + behind,
                label,
                other,
            )) is None,
    ensures
        extract(label, before + entry_text(id, label, token, unit) + behind) == reading_of(
            label,
            token,
        ),
{
    let page = before + entry_text(id, label, token, unit) + behind;
    lemma_entry_is_read(before, id, label, token, unit, behind);
    lemma_laid_out(before, id, label, token, unit, behind);
    lemma_extract_sole_entry(page, label, before.len() as int);
}

} // verus!
