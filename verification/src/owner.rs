//! Resolving the account that owns a process.
//!
//! The per-process status text names the owner by a numeric user id, on a
//! line of the form `Uid: <real> <effective> ...`. This module finds that id
//! and asks the system's user database for the account name.

use vstd::prelude::*;
use vstd::slice::slice_subrange;
use vstd::string::*;

verus! {

/// What a line of the status text says about the owner.
#[derive(Clone, Copy, Debug, PartialEq, Eq)]
pub enum UidField {
    /// The line is no `Uid:` line.
    NotUid,
    /// A `Uid:` line without a readable user id.
    Malformed,
    /// A `Uid:` line with this user id.
    Uid(u32),
}

/// White space that separates the fields of a line.
pub open spec fn is_space(b: u8) -> bool {
    b == 32 || (9 <= b && b <= 13)
}

/// An ASCII decimal digit.
pub open spec fn is_digit(b: u8) -> bool {
    48 <= b && b <= 57
}

/// The first position at or after `from` that holds no white space.
pub open spec fn skip_spaces(line: Seq<u8>, from: int) -> int
    decreases line.len() - from,
{
    if from >= line.len() || !is_space(line[from]) {
        from
    } else {
        skip_spaces(line, from + 1)
    }
}

/// The first position at or after `from` that holds white space.
pub open spec fn skip_word(line: Seq<u8>, from: int) -> int
    decreases line.len() - from,
{
    if from >= line.len() || is_space(line[from]) {
        from
    } else {
        skip_word(line, from + 1)
    }
}

/// The second of the fields that white space separates, if there are two.
pub open spec fn second_field(line: Seq<u8>) -> Option<Seq<u8>> {
    let start = skip_spaces(line, skip_word(line, skip_spaces(line, 0)));
    if start >= line.len() {
        None
    } else {
        Some(line.subrange(start, skip_word(line, start)))
    }
}

/// The number that a run of decimal digits denotes.
pub open spec fn digits_value(digits: Seq<u8>) -> nat
    decreases digits.len(),
{
    if digits.len() == 0 {
        0
    } else {
        digits_value(digits.drop_last()) * 10 + (digits.last() - 48) as nat
    }
}

/// Every byte is a decimal digit.
pub open spec fn all_digits(digits: Seq<u8>) -> bool {
    forall|i: int| 0 <= i < digits.len() ==> is_digit(#[trigger] digits[i])
}

/// The digits of a number field: the field without one leading `+`.
pub open spec fn unsigned_part(field: Seq<u8>) -> Seq<u8> {
    if field.len() > 0 && field[0] == 43 {
        field.subrange(1, field.len() as int)
    } else {
        field
    }
}

/// A field read as a 32-bit unsigned decimal number: an optional `+`, then
/// at least one digit and digits only, the value within range.
pub open spec fn parse_u32(field: Seq<u8>) -> Option<u32> {
    let digits = unsigned_part(field);
    if digits.len() > 0 && all_digits(digits) && digits_value(digits) <= u32::MAX {
        Some(digits_value(digits) as u32)
    } else {
        None
    }
}

/// The line begins with `Uid:`.
pub open spec fn has_uid_prefix(line: Seq<u8>) -> bool {
    line.len() >= 4 && line[0] == 85 && line[1] == 105 && line[2] == 100 && line[3] == 58
}

/// What `line` says about the owner.
pub open spec fn uid_field(line: Seq<u8>) -> UidField {
    if !has_uid_prefix(line) {
        UidField::NotUid
    } else {
        match second_field(line) {
            None => UidField::Malformed,
            Some(field) => match parse_u32(field) {
                None => UidField::Malformed,
                Some(uid) => UidField::Uid(uid),
            },
        }
    }
}

/// The end of the line that starts at `start`: the position of its line
/// feed, or the end of the text.
pub open spec fn line_end(text: Seq<u8>, start: int) -> int
    decreases text.len() - start,
{
    if start >= text.len() || text[start] == 10 {
        start
    } else {
        line_end(text, start + 1)
    }
}

/// The user ids to try for the text from `start` on, in order: those of its
/// `Uid:` lines up to the first malformed one, which ends the search.
pub open spec fn uids_from(text: Seq<u8>, start: int) -> Seq<u32>
    decreases text.len() - start,
{
    if start < 0 || start >= text.len() {
        Seq::empty()
    } else {
        proof {
            lemma_line_end_bounds(text, start);
        }
        let end = line_end(text, start);
        let rest = if end < text.len() {
            uids_from(text, end + 1)
        } else {
            Seq::empty()
        };
        match uid_field(text.subrange(start, end)) {
            UidField::NotUid => rest,
            UidField::Malformed => Seq::empty(),
            UidField::Uid(uid) => seq![uid] + rest,
        }
    }
}

/// The user ids to try for a status text.
pub open spec fn candidate_uids(text: Seq<u8>) -> Seq<u32> {
    uids_from(text, 0)
}

/// A line ends at or after its start, within the text, and holds no line feed.
pub proof fn lemma_line_end_bounds(text: Seq<u8>, start: int)
    requires
        0 <= start <= text.len(),
    ensures
        start <= line_end(text, start) <= text.len(),
        line_end(text, start) < text.len() ==> text[line_end(text, start)] == 10,
        forall|i: int| start <= i < line_end(text, start) ==> text[i] != 10,
    decreases text.len() - start,
{
    if start < text.len() && text[start] != 10 {
        lemma_line_end_bounds(text, start + 1);
    }
}

proof fn lemma_skip_bounds(line: Seq<u8>, from: int)
    requires
        0 <= from <= line.len(),
    ensures
        from <= skip_spaces(line, from) <= line.len(),
        from <= skip_word(line, from) <= line.len(),
    decreases line.len() - from,
{
    if from < line.len() {
        lemma_skip_bounds(line, from + 1);
    }
}

proof fn lemma_digits_value_grows(digits: Seq<u8>, k: int)
    requires
        0 <= k <= digits.len(),
    ensures
        digits_value(digits.take(k)) <= digits_value(digits),
    decreases digits.len() - k,
{
    if k < digits.len() {
        lemma_digits_value_grows(digits, k + 1);
        assert(digits.take(k + 1).drop_last() =~= digits.take(k));
    } else {
        assert(digits.take(k) =~= digits);
    }
}

fn end_of_spaces(line: &[u8], from: usize) -> (pos: usize)
    requires
        from <= line.len(),
    ensures
        pos == skip_spaces(line@, from as int),
        from <= pos <= line.len(),
{
    let mut pos: usize = from;
    while pos < line.len() && (line[pos] == 32 || (9 <= line[pos] && line[pos] <= 13))
        invariant
            from <= pos <= line.len(),
            skip_spaces(line@, pos as int) == skip_spaces(line@, from as int),
        decreases line.len() - pos,
    {
        pos += 1;
    }
    pos
}

fn end_of_word(line: &[u8], from: usize) -> (pos: usize)
    requires
        from <= line.len(),
    ensures
        pos == skip_word(line@, from as int),
        from <= pos <= line.len(),
{
    let mut pos: usize = from;
    while pos < line.len() && !(line[pos] == 32 || (9 <= line[pos] && line[pos] <= 13))
        invariant
            from <= pos <= line.len(),
            skip_word(line@, pos as int) == skip_word(line@, from as int),
        decreases line.len() - pos,
    {
        pos += 1;
    }
    pos
}

/// Reads a run of decimal digits as a 32-bit unsigned number.
fn digits_to_u32(digits: &[u8]) -> (value: Option<u32>)
    ensures
        value == if digits@.len() > 0 && all_digits(digits@) && digits_value(digits@)
            <= u32::MAX {
            Some(digits_value(digits@) as u32)
        } else {
            None
        },
{
    if digits.len() == 0 {
        return None;
    }
    let mut acc: u64 = 0;
    let mut k: usize = 0;
    while k < digits.len()
        invariant
            k <= digits.len(),
            all_digits(digits@.take(k as int)),
            acc == digits_value(digits@.take(k as int)),
            acc <= u32::MAX,
        decreases digits.len() - k,
    {
        let b: u8 = digits[k];
        if b < 48 || b > 57 {
            assert(!is_digit(digits@[k as int]));
            return None;
        }
        proof {
            assert(digits@.take(k + 1).drop_last() =~= digits@.take(k as int));
            assert(digits@.take(k + 1).last() == b);
        }
        acc = acc * 10 + (b - 48) as u64;
        if acc > 0xffff_ffff {
            proof {
                lemma_digits_value_grows(digits@, k + 1);
            }
            return None;
        }
        k += 1;
    }
    assert(digits@.take(k as int) =~= digits@);
    Some(acc as u32)
}

/// Reads a field as a 32-bit unsigned decimal number.
pub fn parse_field(field: &[u8]) -> (value: Option<u32>)
    ensures
        value == parse_u32(field@),
{
    if field.len() > 0 && field[0] == 43 {
        digits_to_u32(slice_subrange(field, 1, field.len()))
    } else {
        digits_to_u32(field)
    }
}

/// Says what a line of the status text tells about the owner.
pub fn classify_line(line: &[u8]) -> (field: UidField)
    ensures
        field == uid_field(line@),
{
    if !(line.len() >= 4 && line[0] == 85 && line[1] == 105 && line[2] == 100 && line[3] == 58) {
        return UidField::NotUid;
    }
    let first: usize = end_of_spaces(line, 0);
    let first_end: usize = end_of_word(line, first);
    let start: usize = end_of_spaces(line, first_end);
    if start >= line.len() {
        return UidField::Malformed;
    }
    let end: usize = end_of_word(line, start);
    match parse_field(slice_subrange(line, start, end)) {
        None => UidField::Malformed,
        Some(uid) => UidField::Uid(uid),
    }
}

fn end_of_line(text: &[u8], start: usize) -> (end: usize)
    requires
        start <= text.len(),
    ensures
        end == line_end(text@, start as int),
        start <= end <= text.len(),
{
    let mut end: usize = start;
    while end < text.len() && text[end] != 10
        invariant
            start <= end <= text.len(),
            line_end(text@, end as int) == line_end(text@, start as int),
        decreases text.len() - end,
    {
        end += 1;
    }
    end
}

/// The user ids to try for a status text, in order.
pub fn scan_uids(text: &[u8]) -> (uids: Vec<u32>)
    ensures
        uids@ == candidate_uids(text@),
{
    let mut uids: Vec<u32> = Vec::new();
    let mut start: usize = 0;
    while start < text.len()
        invariant
            start <= text.len(),
            candidate_uids(text@) == uids@ + uids_from(text@, start as int),
        decreases text.len() - start,
    {
        let end: usize = end_of_line(text, start);
        let field = classify_line(slice_subrange(text, start, end));
        let ghost before = uids@;
        match field {
            UidField::NotUid => {},
            UidField::Malformed => {
                assert(uids@ + Seq::<u32>::empty() =~= uids@);
                return uids;
            },
            UidField::Uid(uid) => {
                uids.push(uid);
            },
        }
        if end == text.len() {
            assert(candidate_uids(text@) =~= uids@);
            return uids;
        }
        proof {
            assert(before + (seq![field->Uid_0] + uids_from(text@, end + 1)) =~= before.push(
                field->Uid_0,
            ) + uids_from(text@, end + 1));
        }
        start = end + 1;
    }
    assert(uids@ + Seq::<u32>::empty() =~= uids@);
    uids
}

/// The owner shown for a process whose account could not be resolved.
pub open spec fn unknown_owner() -> Seq<char> {
    "Unknown"@
}

/// The owner name to show for the answer of a resolution.
pub open spec fn owner_text(found: Option<Seq<char>>) -> Seq<char> {
    match found {
        Some(name) => name,
        None => unknown_owner(),
    }
}

/// Asks the system's user database for the account with this user id, by
/// `users::get_user_by_uid`, and hands back the account's name. Nothing is
/// claimed of the answer: it depends on the accounts of the machine.
#[verifier::external_body]
fn account_name(uid: u32) -> (found: Option<String>) {
    match users::get_user_by_uid(uid) {
        Some(user) => Some(user.name().to_string_lossy().into_owned()),
        None => None,
    }
}

/// Resolves the owner of a process from its status text: the account of the
/// first candidate user id that the user database knows. A text without a
/// candidate resolves to nothing, whatever the database holds.
pub fn resolve_owner(status: &[u8]) -> (owner: Option<String>)
    ensures
        candidate_uids(status@).len() == 0 ==> owner is None,
{
    let uids = scan_uids(status);
    let answers = ask_until_known(&uids);
    first_account(answers)
}

/// An answer of the user database as a mathematical value.
pub open spec fn answer_view(answer: Option<String>) -> Option<Seq<char>> {
    match answer {
        Some(name) => Some(name@),
        None => None,
    }
}

/// The answers of the user database as mathematical values.
pub open spec fn answers_view(answers: Seq<Option<String>>) -> Seq<Option<Seq<char>>> {
    answers.map_values(|answer: Option<String>| answer_view(answer))
}

/// The account that a run of answers resolves to: an earlier answer goes
/// before a later one, and answers that name no account are passed over.
pub open spec fn first_found(answers: Seq<Option<Seq<char>>>) -> Option<Seq<char>>
    decreases answers.len(),
{
    if answers.len() == 0 {
        None
    } else {
        match first_found(answers.drop_last()) {
            Some(name) => Some(name),
            None => answers.last(),
        }
    }
}

/// Asks the user database for the candidates in order and stops at the
/// first that it knows. Every answer but the last names no account.
fn ask_until_known(uids: &Vec<u32>) -> (answers: Vec<Option<String>>)
    ensures
        answers@.len() <= uids@.len(),
        forall|k: int| 0 <= k < answers@.len() - 1 ==> (#[trigger] answers@[k]) is None,
        answers@.len() < uids@.len() ==> answers@.len() > 0 && answers@.last() is Some,
{
    let mut answers: Vec<Option<String>> = Vec::new();
    let mut k: usize = 0;
    while k < uids.len()
        invariant
            k <= uids.len(),
            answers@.len() == k,
            forall|j: int| 0 <= j < k ==> (#[trigger] answers@[j]) is None,
        decreases uids.len() - k,
    {
        let answer = account_name(uids[k]);
        let known: bool = answer.is_some();
        answers.push(answer);
        if known {
            return answers;
        }
        k += 1;
    }
    answers
}

/// The account that the answers to the candidates resolve to: the first
/// that names one.
pub fn first_account(answers: Vec<Option<String>>) -> (owner: Option<String>)
    ensures
        answer_view(owner) == first_found(answers_view(answers@)),
{
    let ghost all = answers_view(answers@);
    let mut rest = answers;
    let mut best: Option<String> = None;
    while rest.len() > 0
        invariant
            first_found(all) == match first_found(answers_view(rest@)) {
                Some(name) => Some(name),
                None => answer_view(best),
            },
        decreases rest.len(),
    {
        let ghost before = answers_view(rest@);
        let last: Option<String> = rest.pop().unwrap();
        proof {
            assert(before.drop_last() =~= answers_view(rest@));
            assert(before.last() == answer_view(last));
        }
        if last.is_some() {
            best = last;
        }
    }
    best
}

/// The owner name to show: the resolved account, or the placeholder where
/// there is none.
pub fn owner_or_placeholder(found: Option<String>) -> (owner: String)
    ensures
        owner@ == owner_text(
            match found {
                Some(name) => Some(name@),
                None => None,
            },
        ),
{
    match found {
        Some(name) => name,
        None => String::from_str("Unknown"),
    }
}

} // verus!
