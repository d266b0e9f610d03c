//! Telling from the output of a device listing whether a device is connected.
//!
//! Two listings are understood. The general one prints a header line and then
//! one line per device, an identifier and a status; a device counts when its
//! status is the ready token. The bootloader one prints one line per device
//! and nothing else, so any line that is not blank counts.

use crate::text::{blank, is_blank, lines, split_fields, split_lines, texts, words, Delimiter};
use vstd::prelude::*;
use vstd::string::*;

verus! {

/// The status that the general listing gives a device that is ready.
pub open spec fn ready_token() -> Seq<char> {
    "device"@
}

/// Whether `line` reports a ready device: it has exactly two words, and the
/// second is the ready token.
pub open spec fn is_ready_line(line: Seq<char>) -> bool {
    words(line).len() == 2 && words(line)[1] == ready_token()
}

/// Whether the general listing reports a ready device: some line after the
/// first, which is the header, does.
pub open spec fn adb_reports_device(listing: Seq<char>) -> bool {
    exists|k: int| 1 <= k < lines(listing).len() && is_ready_line(#[trigger] lines(listing)[k])
}

/// Whether the bootloader listing reports a device: some line is not blank.
pub open spec fn fastboot_reports_device(listing: Seq<char>) -> bool {
    exists|k: int| 0 <= k < lines(listing).len() && !is_blank(#[trigger] lines(listing)[k])
}

/// Tells whether `line` reports a ready device.
pub fn ready_line(line: &str) -> (r: bool)
    ensures
        r == is_ready_line(line@),
{
    let ws = split_fields(line, Delimiter::Whitespace);
    if ws.len() != 2 {
        return false;
    }
    let token = String::from_str("device");
    assert(texts(ws@)[1] == ws@[1]@);
    ws[1] == token
}

/// Tells whether the output of the general device listing reports a device
/// that is ready.
pub fn has_adb_device(listing: &str) -> (r: bool)
    ensures
        r == adb_reports_device(listing@),
{
    let ls = split_lines(listing);
    let mut k: usize = 1;
    while k < ls.len()
        invariant
            1 <= k,
            texts(ls@) == lines(listing@),
            forall|j: int| 1 <= j < k && j < ls.len() ==> !is_ready_line(#[trigger] lines(listing@)[j]),
        decreases ls.len() - k,
    {
        assert(texts(ls@)[k as int] == ls@[k as int]@);
        if ready_line(ls[k].as_str()) {
            return true;
        }
        k = k + 1;
    }
    false
}

/// Tells whether the output of the bootloader device listing reports a
/// device.
pub fn has_fastboot_device(listing: &str) -> (r: bool)
    ensures
        r == fastboot_reports_device(listing@),
{
    let ls = split_lines(listing);
    let mut k: usize = 0;
    while k < ls.len()
        invariant
            k <= ls.len(),
            texts(ls@) == lines(listing@),
            forall|j: int| 0 <= j < k ==> is_blank(#[trigger] lines(listing@)[j]),
        decreases ls.len() - k,
    {
        assert(texts(ls@)[k as int] == ls@[k as int]@);
        if !blank(ls[k].as_str()) {
            return true;
        }
        k = k + 1;
    }
    false
}

/// Tells whether either listing reports a device.
pub fn check_if_devices_are_connected(adb_listing: &str, fastboot_listing: &str) -> (r: bool)
    ensures
        r == (adb_reports_device(adb_listing@) || fastboot_reports_device(fastboot_listing@)),
{
    has_adb_device(adb_listing) || has_fastboot_device(fastboot_listing)
}

/// Where the search for a device stands. The general listing is asked
/// first, and the bootloader listing only if the general one shows no
/// device.
#[derive(Clone, Copy, Debug, PartialEq, Eq, Structural)]
pub enum Search {
    /// The general listing is to be asked.
    General,
    /// The general listing showed no device; the bootloader listing is to be
    /// asked.
    Bootloader,
    /// The search is over: a device was found, or none was.
    Over(bool),
}

/// Where the search stands once the listing that was due at `at` has been
/// read. A search that is over stays as it is.
pub open spec fn search_after(at: Search, listing: Seq<char>) -> Search {
    match at {
        Search::General => if adb_reports_device(listing) {
            Search::Over(true)
        } else {
            Search::Bootloader
        },
        Search::Bootloader => Search::Over(fastboot_reports_device(listing)),
        Search::Over(found) => Search::Over(found),
    }
}

/// Takes the listing that was due at `at` and says where the search stands
/// then.
pub fn search_step(at: Search, listing: &str) -> (r: Search)
    ensures
        r == search_after(at, listing@),
{
    match at {
        Search::General => if has_adb_device(listing) {
            Search::Over(true)
        } else {
            Search::Bootloader
        },
        Search::Bootloader => Search::Over(has_fastboot_device(listing)),
        Search::Over(found) => Search::Over(found),
    }
}

/// The search finds a device exactly if one of the two listings shows one,
/// and asks the bootloader listing only if the general one shows none.
pub proof fn lemma_search_finds_either(adb_listing: Seq<char>, fastboot_listing: Seq<char>)
    ensures
        search_after(Search::General, adb_listing) is Over <==> adb_reports_device(adb_listing),
        search_after(search_after(Search::General, adb_listing), fastboot_listing) == Search::Over(
            adb_reports_device(adb_listing) || fastboot_reports_device(fastboot_listing),
        ),
{
}

} // verus!
