//! The two tables of a monitor, held in `indexmap::IndexMap`: the downloads in their order, and
//! the past speeds of each.

use indexmap::IndexMap;
use std::collections::VecDeque;
use vstd::prelude::*;

use crate::entry::{DownloadEntry, EntryModel};
use crate::speed::{Speed, SpeedModel};

verus! {

use crate::speed::speeds;
use crate::table::{lookup, past, with, without};

/// `indexmap::IndexMap`.
#[verifier::external_type_specification]
#[verifier::external_body]
#[verifier::reject_recursive_types(K)]
#[verifier::reject_recursive_types(V)]
#[verifier::reject_recursive_types(S)]
pub struct ExIndexMap<K, V, S>(IndexMap<K, V, S>);

/// The keys and downloads of a table, in its order.
pub uninterp spec fn downloads_of(table: IndexMap<String, DownloadEntry>) -> Seq<
    (Seq<char>, EntryModel),
>;

/// The keys and past speeds of a table, in its order; of each the oldest speed first.
pub uninterp spec fn history_of(table: IndexMap<String, VecDeque<Speed>>) -> Seq<
    (Seq<char>, Seq<SpeedModel>),
>;

/// `IndexMap::new`: a table without downloads.
#[verifier::external_body]
pub(crate) fn new_downloads() -> (r: IndexMap<String, DownloadEntry>)
    ensures
        downloads_of(r).len() == 0,
{
    IndexMap::new()
}

/// `IndexMap::len`: the number of downloads.
#[verifier::external_body]
pub(crate) fn count_downloads(table: &IndexMap<String, DownloadEntry>) -> (r: usize)
    ensures
        r == downloads_of(*table).len(),
{
    table.len()
}

/// `IndexMap::get`: the download under `key`.
#[verifier::external_body]
pub(crate) fn get_download<'a>(table: &'a IndexMap<String, DownloadEntry>, key: &str) -> (r: Option<
    &'a DownloadEntry,
>)
    ensures
        match r {
            Some(e) => lookup(downloads_of(*table), key@) == Some(e@),
            None => lookup(downloads_of(*table), key@) is None,
        },
{
    table.get(key)
}

/// `IndexMap::get_index`: the key and the download at a place in the order.
#[verifier::external_body]
pub(crate) fn download_at<'a>(table: &'a IndexMap<String, DownloadEntry>, i: usize) -> (r: Option<
    (&'a String, &'a DownloadEntry),
>)
    ensures
        match r {
            Some(p) => i < downloads_of(*table).len() && downloads_of(*table)[i as int] == (
                p.0@,
                p.1@,
            ),
            None => i >= downloads_of(*table).len(),
        },
{
    table.get_index(i)
}

/// `IndexMap::insert`: puts a download under `key`, in its place where the table has the key, else
/// last; gives back the one that it replaces.
#[verifier::external_body]
pub(crate) fn insert_download(
    table: &mut IndexMap<String, DownloadEntry>,
    key: String,
    e: DownloadEntry,
) -> (r: Option<DownloadEntry>)
    ensures
        downloads_of(*final(table)) == with(downloads_of(*old(table)), key@, e@),
        match r {
            Some(replaced) => lookup(downloads_of(*old(table)), key@) == Some(replaced@),
            None => lookup(downloads_of(*old(table)), key@) is None,
        },
{
    table.insert(key, e)
}

/// `IndexMap::shift_remove`: takes the download under `key` out; the others keep their order.
#[verifier::external_body]
pub(crate) fn remove_download(table: &mut IndexMap<String, DownloadEntry>, key: &str) -> (r: Option<
    DownloadEntry,
>)
    ensures
        downloads_of(*final(table)) == without(downloads_of(*old(table)), key@),
        match r {
            Some(removed) => lookup(downloads_of(*old(table)), key@) == Some(removed@),
            None => lookup(downloads_of(*old(table)), key@) is None,
        },
{
    table.shift_remove(key)
}

/// `IndexMap::new`: a table without past speeds.
#[verifier::external_body]
pub(crate) fn new_history() -> (r: IndexMap<String, VecDeque<Speed>>)
    ensures
        history_of(r).len() == 0,
{
    IndexMap::new()
}

/// `IndexMap::get`: the past speeds under `key`.
#[verifier::external_body]
pub(crate) fn get_history<'a>(table: &'a IndexMap<String, VecDeque<Speed>>, key: &str) -> (r:
    Option<&'a VecDeque<Speed>>)
    ensures
        match r {
            Some(q) => lookup(history_of(*table), key@) == Some(speeds(q@)),
            None => lookup(history_of(*table), key@) is None,
        },
{
    table.get(key)
}

/// `IndexMap::entry` and `Entry::or_insert_with`: the past speeds under `key` for change, in their
/// place; where the table did not have the key, none yet, and last.
#[verifier::external_body]
pub(crate) fn history_slot(table: &mut IndexMap<String, VecDeque<Speed>>, key: String) -> (slot:
    &mut VecDeque<Speed>)
    ensures
        speeds(slot@) == past(history_of(*old(table)), key@),
        history_of(*final(table)) == with(
            history_of(*old(table)),
            key@,
            speeds(final(slot)@),
        ),
{
    table.entry(key).or_insert_with(VecDeque::new)
}

/// `IndexMap::shift_remove`: takes the past speeds under `key` out; the others keep their order.
#[verifier::external_body]
pub(crate) fn remove_history(table: &mut IndexMap<String, VecDeque<Speed>>, key: &str) -> (r:
    Option<VecDeque<Speed>>)
    ensures
        history_of(*final(table)) == without(history_of(*old(table)), key@),
        match r {
            Some(q) => lookup(history_of(*old(table)), key@) == Some(speeds(q@)),
            None => lookup(history_of(*old(table)), key@) is None,
        },
{
    table.shift_remove(key)
}

} // verus!
