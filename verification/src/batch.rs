//! A whole run: the entries out of their fields, and the answers to a list
//! of raw addresses.

use crate::error::{VMError, VMResult};
use crate::io::data::decimal::{decimal_text, decimal_value, read_decimal, write_decimal};
use crate::io::pt_input::{pt_input_of, PTInput};
use crate::io::st_input::{st_input_of, STInput};
use crate::vm::machine_state::MachineState;
use crate::vm::virtual_address::{decode, VirtualAddress};
use crate::vm::virtual_memory::{Address, VirtualMemory};
use vstd::prelude::*;

verus! {

/// What is written out in place of an address that lies beyond its segment
/// or in a part of memory that was never initialised.
pub const NO_ADDRESS: i64 = -1;

/// The text of field `k` of `fields`. A field that is not there counts as an
/// empty text.
pub open spec fn field_at(fields: Seq<&str>, k: int) -> Seq<char> {
    if 0 <= k < fields.len() {
        fields[k]@
    } else {
        Seq::empty()
    }
}

/// How many entries `fields` write, three fields to an entry. An entry that
/// has begun counts, though fields of it are missing at the end.
pub open spec fn entry_count(fields: Seq<&str>) -> int {
    (fields.len() as int + 2) / 3
}

/// The first `count` segment entries that `fields` write, three fields to an
/// entry: the entries in order, or the error of the first entry that has
/// one.
pub open spec fn segment_entries_upto(fields: Seq<&str>, count: int) -> VMResult<Seq<STInput>>
    decreases count,
{
    if count <= 0 {
        Ok(Seq::empty())
    } else {
        match segment_entries_upto(fields, count - 1) {
            Ok(entries) => match st_input_of(
                field_at(fields, 3 * count - 3),
                field_at(fields, 3 * count - 2),
                field_at(fields, 3 * count - 1),
            ) {
                Ok(entry) => Ok(entries.push(entry)),
                Err(e) => Err(e),
            },
            Err(e) => Err(e),
        }
    }
}

/// The segment entries that `fields` write, three fields to an entry:
/// segment, size, location.
pub open spec fn segment_entries_of(fields: Seq<&str>) -> VMResult<Seq<STInput>> {
    segment_entries_upto(fields, entry_count(fields))
}

/// The first `count` page entries that `fields` write, three fields to an
/// entry: the entries in order, or the error of the first entry that has
/// one.
pub open spec fn page_entries_upto(fields: Seq<&str>, count: int) -> VMResult<Seq<PTInput>>
    decreases count,
{
    if count <= 0 {
        Ok(Seq::empty())
    } else {
        match page_entries_upto(fields, count - 1) {
            Ok(entries) => match pt_input_of(
                field_at(fields, 3 * count - 3),
                field_at(fields, 3 * count - 2),
                field_at(fields, 3 * count - 1),
            ) {
                Ok(entry) => Ok(entries.push(entry)),
                Err(e) => Err(e),
            },
            Err(e) => Err(e),
        }
    }
}

/// The page entries that `fields` write, three fields to an entry: segment,
/// page, location.
pub open spec fn page_entries_of(fields: Seq<&str>) -> VMResult<Seq<PTInput>> {
    page_entries_upto(fields, entry_count(fields))
}

/// The items of a list that was read or computed, as a sequence.
pub open spec fn items_of<T>(result: VMResult<Vec<T>>) -> VMResult<Seq<T>> {
    match result {
        Ok(entries) => Ok(entries@),
        Err(e) => Err(e),
    }
}

/// Field `k` of `fields`, or an empty text where there is none.
fn field<'a>(fields: &Vec<&'a str>, k: usize) -> (text: &'a str)
    ensures
        text@ == field_at(fields@, k as int),
{
    if k < fields.len() {
        fields[k]
    } else {
        proof {
            reveal_strlit("");
        }
        ""
    }
}

/// Reads the entries of the segment table from their fields, three to an
/// entry: segment, size, location.
///
/// Returns the entries in the order of the fields, each of them valid, or
/// the error of the first entry that has one. A field that is missing from
/// the last entry is read as an empty text, and so is an error.
pub fn segment_entries(fields: &Vec<&str>) -> (result: VMResult<Vec<STInput>>)
    ensures
        items_of(result) == segment_entries_of(fields@),
        result matches Ok(entries) ==> entries@.len() * 3 == fields@.len() && forall|k: int|
            0 <= k < entries@.len() ==> (#[trigger] entries@[k]).wf(),
{
    let mut entries: Vec<STInput> = Vec::new();
    let mut at: usize = 0;
    while at < fields.len()
        invariant
            at <= fields@.len(),
            entries@.len() * 3 == at,
            segment_entries_upto(fields@, entries@.len() as int) == Ok::<Seq<STInput>, VMError>(
                entries@,
            ),
            forall|k: int| 0 <= k < entries@.len() ==> (#[trigger] entries@[k]).wf(),
        decreases fields@.len() - at,
    {
        let complete: bool = fields.len() - at >= 3;
        let second: usize = if fields.len() - at >= 2 { at + 1 } else { fields.len() };
        let third: usize = if complete { at + 2 } else { fields.len() };
        proof {
            if !complete {
                lemma_missing_field_fails(fields@, at as int);
            }
            assert(field_at(fields@, second as int) == field_at(fields@, at + 1));
            assert(field_at(fields@, third as int) == field_at(fields@, at + 2));
        }
        match STInput::new(field(fields, at), field(fields, second), field(fields, third)) {
            Ok(entry) => {
                entries.push(entry);
            },
            Err(e) => {
                proof {
                    lemma_segment_entries_error(
                        fields@,
                        entries@.len() as int + 1,
                        entry_count(fields@),
                    );
                }
                return Err(e);
            },
        }
        at = at + 3;
    }
    Ok(entries)
}

/// Reads the entries of the page tables from their fields, three to an
/// entry: segment, page, location.
///
/// Returns the entries in the order of the fields, each of them valid, or
/// the error of the first entry that has one. A field that is missing from
/// the last entry is read as an empty text, and so is an error.
pub fn page_entries(fields: &Vec<&str>) -> (result: VMResult<Vec<PTInput>>)
    ensures
        items_of(result) == page_entries_of(fields@),
        result matches Ok(entries) ==> entries@.len() * 3 == fields@.len() && forall|k: int|
            0 <= k < entries@.len() ==> (#[trigger] entries@[k]).wf(),
{
    let mut entries: Vec<PTInput> = Vec::new();
    let mut at: usize = 0;
    while at < fields.len()
        invariant
            at <= fields@.len(),
            entries@.len() * 3 == at,
            page_entries_upto(fields@, entries@.len() as int) == Ok::<Seq<PTInput>, VMError>(
                entries@,
            ),
            forall|k: int| 0 <= k < entries@.len() ==> (#[trigger] entries@[k]).wf(),
        decreases fields@.len() - at,
    {
        let complete: bool = fields.len() - at >= 3;
        let second: usize = if fields.len() - at >= 2 { at + 1 } else { fields.len() };
        let third: usize = if complete { at + 2 } else { fields.len() };
        proof {
            if !complete {
                lemma_missing_field_fails(fields@, at as int);
            }
            assert(field_at(fields@, second as int) == field_at(fields@, at + 1));
            assert(field_at(fields@, third as int) == field_at(fields@, at + 2));
        }
        match PTInput::new(field(fields, at), field(fields, second), field(fields, third)) {
            Ok(entry) => {
                entries.push(entry);
            },
            Err(e) => {
                proof {
                    lemma_page_entries_error(
                        fields@,
                        entries@.len() as int + 1,
                        entry_count(fields@),
                    );
                }
                return Err(e);
            },
        }
        at = at + 3;
    }
    Ok(entries)
}

/// An empty text writes no number, so an entry with a field missing has an
/// error.
proof fn lemma_missing_field_fails(fields: Seq<&str>, at: int)
    requires
        0 <= at < fields.len(),
        fields.len() - at < 3,
    ensures
        st_input_of(field_at(fields, at), field_at(fields, at + 1), field_at(fields, at + 2))
            is Err,
        pt_input_of(field_at(fields, at), field_at(fields, at + 1), field_at(fields, at + 2))
            is Err,
{
    let none = Seq::<char>::empty();
    assert(none.skip(0) =~= none);
    assert(decimal_value(none, true) is None);
}

/// An error among the first entries is the error of any more of them.
proof fn lemma_segment_entries_error(fields: Seq<&str>, count: int, more: int)
    requires
        count <= more,
        segment_entries_upto(fields, count) is Err,
    ensures
        segment_entries_upto(fields, more) == segment_entries_upto(fields, count),
    decreases more - count,
{
    if count < more {
        lemma_segment_entries_error(fields, count, more - 1);
    }
}

/// An error among the first entries is the error of any more of them.
proof fn lemma_page_entries_error(fields: Seq<&str>, count: int, more: int)
    requires
        count <= more,
        page_entries_upto(fields, count) is Err,
    ensures
        page_entries_upto(fields, more) == page_entries_upto(fields, count),
    decreases more - count,
{
    if count < more {
        lemma_page_entries_error(fields, count, more - 1);
    }
}

/// The raw address that `text` writes in unsigned decimal, if it writes one
/// that fits in 32 bits.
pub open spec fn raw_address_of(text: Seq<char>) -> Option<u32> {
    match decimal_value(text, false) {
        Some(v) if 0 <= v <= u32::MAX => Some(v as u32),
        _ => None,
    }
}

/// The raw addresses that `fields` write, in order, if each of them writes
/// one.
pub open spec fn raw_addresses_of(fields: Seq<&str>) -> Option<Seq<u32>>
    decreases fields.len(),
{
    if fields.len() == 0 {
        Some(Seq::empty())
    } else {
        match (raw_addresses_of(fields.drop_last()), raw_address_of(fields.last()@)) {
            (Some(raws), Some(raw)) => Some(raws.push(raw)),
            _ => None,
        }
    }
}

/// Reads a raw address from unsigned decimal text.
///
/// Returns the number where `text` writes one that fits in 32 bits, and
/// `None` for every other text.
pub fn raw_address(text: &str) -> (raw: Option<u32>)
    ensures
        raw == raw_address_of(text@),
{
    match read_decimal(text, false, u32::MAX) {
        Some(number) => Some(number as u32),
        None => None,
    }
}

/// Reads the raw addresses of a run, one from each field.
///
/// Returns the addresses in the order of the fields, or `None` where a field
/// writes no address.
pub fn raw_addresses(fields: &Vec<&str>) -> (result: Option<Vec<u32>>)
    ensures
        match raw_addresses_of(fields@) {
            Some(raws) => result matches Some(read) && read@ == raws,
            None => result is None,
        },
{
    let mut raws: Vec<u32> = Vec::new();
    let mut at: usize = 0;
    while at < fields.len()
        invariant
            at <= fields@.len(),
            raw_addresses_of(fields@.take(at as int)) == Some(raws@),
        decreases fields@.len() - at,
    {
        let ghost next = fields@.take(at + 1);
        assert(next.drop_last() =~= fields@.take(at as int));
        match raw_address(fields[at]) {
            Some(raw) => {
                raws.push(raw);
            },
            None => {
                proof {
                    lemma_raw_addresses_none(fields@, at + 1);
                }
                return None;
            },
        }
        at = at + 1;
    }
    assert(fields@.take(at as int) =~= fields@);
    Some(raws)
}

/// Fields that write no addresses write none, whatever follows them.
proof fn lemma_raw_addresses_none(fields: Seq<&str>, upto: int)
    requires
        0 <= upto <= fields.len(),
        raw_addresses_of(fields.take(upto)) is None,
    ensures
        raw_addresses_of(fields) is None,
    decreases fields.len() - upto,
{
    if upto < fields.len() {
        let longer = fields.take(upto + 1);
        assert(longer.drop_last() =~= fields.take(upto));
        lemma_raw_addresses_none(fields, upto + 1);
    } else {
        assert(fields.take(upto) =~= fields);
    }
}

/// What is written out for the result of a translation: the address, or
/// [`NO_ADDRESS`] for an address beyond its segment or in memory that was
/// never initialised. Any other error stays an error.
pub open spec fn answer_of(result: VMResult<Address>) -> VMResult<i64> {
    match result {
        Ok(address) => Ok(address as i64),
        Err(VMError::VirtualAddressOutOfBounds) => Ok(NO_ADDRESS),
        Err(VMError::MemoryNotInitialized) => Ok(NO_ADDRESS),
        Err(e) => Err(e),
    }
}

/// Gives what is written out for the result of a translation.
pub fn answer(result: VMResult<Address>) -> (written: VMResult<i64>)
    ensures
        written == answer_of(result),
{
    match result {
        Ok(address) => Ok(address as i64),
        Err(VMError::VirtualAddressOutOfBounds) => Ok(NO_ADDRESS),
        Err(VMError::MemoryNotInitialized) => Ok(NO_ADDRESS),
        Err(e) => Err(e),
    }
}

/// The state after the raw addresses `raws` were translated in order, and
/// what is written out for them. The run ends at the first address that does
/// not decode or whose translation has no answer, with that error; the state
/// is then the one after that translation.
pub open spec fn answers_of(state: MachineState, raws: Seq<u32>) -> (
    MachineState,
    VMResult<Seq<i64>>,
)
    decreases raws.len(),
{
    if raws.len() == 0 {
        (state, Ok(Seq::empty()))
    } else {
        match answers_of(state, raws.drop_last()) {
            (before, Ok(answers)) => match decode(raws.last()) {
                Ok(address) => {
                    let (after, result) = before.translate(address);
                    match answer_of(result) {
                        Ok(written) => (after, Ok(answers.push(written))),
                        Err(e) => (after, Err(e)),
                    }
                },
                Err(e) => (before, Err(e)),
            },
            (before, Err(e)) => (before, Err(e)),
        }
    }
}

/// Translates the raw addresses `raws` in order, and returns what is
/// written out for each.
///
/// Fails at the first address that has bits set above the segment number,
/// with `VirtualAddressLeadingBits`, or whose translation fails for lack of
/// a free frame, with `MemoryFull`. What was brought in up to then stays.
pub fn answer_queries(memory: &mut VirtualMemory, raws: &Vec<u32>) -> (result: VMResult<Vec<i64>>)
    requires
        old(memory).wf(),
    ensures
        final(memory).wf(),
        (final(memory)@, items_of(result)) == answers_of(old(memory)@, raws@),
        result matches Ok(answers) ==> answers@.len() == raws@.len(),
{
    let mut answers: Vec<i64> = Vec::new();
    let mut at: usize = 0;
    while at < raws.len()
        invariant
            at <= raws@.len(),
            memory.wf(),
            answers@.len() == at,
            answers_of(old(memory)@, raws@.take(at as int)) == (
                memory@,
                Ok::<Seq<i64>, VMError>(answers@),
            ),
        decreases raws@.len() - at,
    {
        let ghost next = raws@.take(at + 1);
        assert(next.drop_last() =~= raws@.take(at as int));
        let address = match VirtualAddress::new(raws[at]) {
            Ok(address) => address,
            Err(e) => {
                proof {
                    lemma_answers_error(old(memory)@, raws@, at + 1);
                }
                return Err(e);
            },
        };
        match answer(memory.translate(address)) {
            Ok(written) => {
                answers.push(written);
            },
            Err(e) => {
                proof {
                    lemma_answers_error(old(memory)@, raws@, at + 1);
                }
                return Err(e);
            },
        }
        at = at + 1;
    }
    assert(raws@.take(at as int) =~= raws@);
    Ok(answers)
}

/// A run that has ended in an error stays as it is, whatever follows.
proof fn lemma_answers_error(state: MachineState, raws: Seq<u32>, upto: int)
    requires
        0 <= upto <= raws.len(),
        answers_of(state, raws.take(upto)).1 is Err,
    ensures
        answers_of(state, raws) == answers_of(state, raws.take(upto)),
    decreases raws.len() - upto,
{
    if upto < raws.len() {
        let longer = raws.take(upto + 1);
        assert(longer.drop_last() =~= raws.take(upto));
        lemma_answers_error(state, raws, upto + 1);
    } else {
        assert(raws.take(upto) =~= raws);
    }
}

/// The answers in decimal, one space between each two.
pub open spec fn joined(answers: Seq<i64>) -> Seq<char>
    decreases answers.len(),
{
    if answers.len() == 0 {
        Seq::empty()
    } else if answers.len() == 1 {
        decimal_text(answers[0] as int)
    } else {
        joined(answers.drop_last()) + seq![' '] + decimal_text(answers.last() as int)
    }
}

/// The line that is written out for `answers`: the answers in decimal, one
/// space between each two, and the end of the line.
pub open spec fn line_of(answers: Seq<i64>) -> Seq<char> {
    joined(answers) + seq!['\n']
}

/// Writes out `answers` on one line.
pub fn answer_line(answers: &Vec<i64>) -> (line: String)
    ensures
        line@ == line_of(answers@),
{
    let mut line = String::new();
    let mut at: usize = 0;
    proof {
        reveal_strlit(" ");
        reveal_strlit("\n");
    }
    while at < answers.len()
        invariant
            at <= answers@.len(),
            line@ == joined(answers@.take(at as int)),
            " "@ == seq![' '],
        decreases answers@.len() - at,
    {
        let ghost next = answers@.take(at + 1);
        assert(next.drop_last() =~= answers@.take(at as int));
        if at > 0 {
            line.append(" ");
        }
        write_decimal(answers[at], &mut line);
        assert(line@ =~= joined(next));
        at = at + 1;
    }
    assert(answers@.take(at as int) =~= answers@);
    line.append("\n");
    line
}

} // verus!
