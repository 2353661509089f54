//! The contents of a directory: the records its clusters hold, and the
//! lookups made in them.

use vstd::prelude::*;
use vstd::slice::slice_subrange;
use vstd::string::StringSliceAdditionalSpecFns;
use vstd::utf8::encode_utf8;
use crate::directory::{DirectoryEntry, DirectoryRecord};
use crate::error::Fat32Error;
use crate::path::{eq_ignore_case, names_match};

verus! {

/// The models of a sequence of decoded records.
pub open spec fn records(entries: Seq<DirectoryEntry>) -> Seq<DirectoryRecord> {
    entries.map_values(|entry: DirectoryEntry| entry@)
}

/// The records that a buffer of directory data contributes to a listing.
///
/// The buffer is read as consecutive 32-byte records; bytes left over at
/// its end are ignored. The end marker stops the reading, whatever follows
/// it; a record before it is taken if it is listed, and passed over if it
/// is not.
pub open spec fn listing(data: Seq<u8>) -> Seq<DirectoryRecord>
    decreases data.len(),
{
    if data.len() < 32 {
        Seq::empty()
    } else {
        let record = DirectoryRecord::decode(data);
        if record.is_end() {
            Seq::empty()
        } else if record.is_listed() {
            seq![record] + listing(data.skip(32))
        } else {
            listing(data.skip(32))
        }
    }
}

/// Whether one of the 32-byte records in a buffer of directory data is the
/// end marker.
pub open spec fn has_end(data: Seq<u8>) -> bool
    decreases data.len(),
{
    data.len() >= 32 && (DirectoryRecord::decode(data).is_end() || has_end(data.skip(32)))
}

/// The listing of a directory stored in the given clusters, in chain order:
/// the listing of each cluster up to and including the first one that holds
/// the end marker.
pub open spec fn directory_listing(clusters: Seq<Seq<u8>>) -> Seq<DirectoryRecord>
    decreases clusters.len(),
{
    if clusters.len() == 0 {
        Seq::empty()
    } else if has_end(clusters[0]) {
        listing(clusters[0])
    } else {
        listing(clusters[0]) + directory_listing(clusters.drop_first())
    }
}

/// Whether each of the given clusters has `size` bytes.
pub open spec fn all_of_size(clusters: Seq<Seq<u8>>, size: int) -> bool {
    forall|k: int| 0 <= k < clusters.len() ==> (#[trigger] clusters[k]).len() == size
}

/// Whether every record of `listed` is one that a listing shows.
pub open spec fn all_listed(listed: Seq<DirectoryRecord>) -> bool {
    forall|i: int| 0 <= i < listed.len() ==> (#[trigger] listed[i]).is_listed()
}

/// Whether `record` is a subdirectory that the path component `name`
/// selects: a directory other than `.` and `..` whose short name matches.
pub open spec fn is_directory_named(record: DirectoryRecord, name: Seq<u8>) -> bool {
    &&& record.file_attributes().spec_is_directory()
    &&& !record.is_dot()
    &&& !record.is_dot_dot()
    &&& names_match(encode_utf8(record.short_name()), name)
}

/// Whether `record` is a file that the leaf name `name` selects: a record
/// that is not a directory and whose short name matches.
pub open spec fn is_file_named(record: DirectoryRecord, name: Seq<u8>) -> bool {
    &&& !record.file_attributes().spec_is_directory()
    &&& names_match(encode_utf8(record.short_name()), name)
}

/// The cluster that a `..` record refers to: the one it names, where 0
/// stands for the root directory.
pub open spec fn parent_cluster(record: DirectoryRecord, root: u32) -> u32 {
    if record.first_cluster() == 0 {
        root
    } else {
        record.first_cluster()
    }
}

/// The position of the first record of `listing` that is `wanted`.
pub open spec fn first_index(
    listing: Seq<DirectoryRecord>,
    wanted: spec_fn(DirectoryRecord) -> bool,
) -> Option<int>
    decreases listing.len(),
{
    if listing.len() == 0 {
        None
    } else if wanted(listing[0]) {
        Some(0)
    } else {
        match first_index(listing.drop_first(), wanted) {
            Some(at) => Some(at + 1),
            None => None,
        }
    }
}

/// The records that the path component `name` selects as a subdirectory.
pub open spec fn directory_named(name: Seq<u8>) -> spec_fn(DirectoryRecord) -> bool {
    |record: DirectoryRecord| is_directory_named(record, name)
}

/// The records that the leaf name `name` selects as a file.
pub open spec fn file_named(name: Seq<u8>) -> spec_fn(DirectoryRecord) -> bool {
    |record: DirectoryRecord| is_file_named(record, name)
}

/// The records `..`.
pub open spec fn parent_record() -> spec_fn(DirectoryRecord) -> bool {
    |record: DirectoryRecord| record.is_dot_dot()
}

/// The cluster of the subdirectory of a directory that the path component
/// `name` selects: that of the first record of its listing that matches.
pub open spec fn subdirectory(listing: Seq<DirectoryRecord>, name: Seq<u8>) -> Option<u32> {
    match first_index(listing, directory_named(name)) {
        Some(at) => Some(listing[at].first_cluster()),
        None => None,
    }
}

/// The cluster of the parent of a directory: the one that the first `..`
/// record of its listing refers to.
pub open spec fn parent(listing: Seq<DirectoryRecord>, root: u32) -> Option<u32> {
    match first_index(listing, parent_record()) {
        Some(at) => Some(parent_cluster(listing[at], root)),
        None => None,
    }
}

/// The first cluster and the size of the file of a directory that the leaf
/// name `name` selects: those of the first record of its listing that
/// matches.
pub open spec fn file(listing: Seq<DirectoryRecord>, name: Seq<u8>) -> Option<(u32, u32)> {
    match first_index(listing, file_named(name)) {
        Some(at) => Some((listing[at].first_cluster(), listing[at].file_size)),
        None => None,
    }
}

/// What a lookup in a listing answers: what it selected, or that nothing
/// of the name was found.
pub open spec fn answer<T>(selected: Option<T>) -> Result<T, Fat32Error> {
    match selected {
        Some(value) => Ok(value),
        None => Err(Fat32Error::NotFound),
    }
}

/// The cluster at which the chain of a file's contents starts: the file's
/// first cluster, and none for a file of size 0, which has no contents to
/// read.
pub open spec fn contents_start(first: u32, size: u32) -> Option<u32> {
    if size == 0 {
        None
    } else {
        Some(first)
    }
}

/// The first wanted record is the one that no wanted record stands before,
/// and there is none where no record is wanted.
pub proof fn lemma_first_index(
    listing: Seq<DirectoryRecord>,
    wanted: spec_fn(DirectoryRecord) -> bool,
    at: int,
)
    requires
        0 <= at <= listing.len(),
        forall|j: int| 0 <= j < at ==> !wanted(#[trigger] listing[j]),
        at < listing.len() ==> wanted(listing[at]),
    ensures
        first_index(listing, wanted) == if at < listing.len() {
            Some(at)
        } else {
            None
        },
    decreases at,
{
    if at > 0 {
        let rest = listing.drop_first();
        assert(!wanted(listing[0]));
        assert forall|j: int| 0 <= j < at - 1 implies !wanted(#[trigger] rest[j]) by {
            assert(rest[j] == listing[j + 1]);
        }
        if at < listing.len() {
            assert(rest[at - 1] == listing[at]);
        }
        lemma_first_index(rest, wanted, at - 1);
    }
}

/// A directory whose first record is the end marker is empty: nothing is
/// listed, and that is no failure.
pub proof fn lemma_empty_directory(data: Seq<u8>)
    requires
        data.len() >= 32,
        DirectoryRecord::decode(data).is_end(),
    ensures
        listing(data).len() == 0,
        has_end(data),
        directory_listing(seq![data]).len() == 0,
{
    assert(seq![data][0] == data);
}

/// A free record does not stop the reading of a directory: it is passed
/// over, and the reading goes on with the record after it.
pub proof fn lemma_free_record_is_skipped(data: Seq<u8>)
    requires
        data.len() >= 32,
        DirectoryRecord::decode(data).is_free(),
    ensures
        listing(data) == listing(data.skip(32)),
        has_end(data) == has_end(data.skip(32)),
{
}

/// Reading stops at the first end marker: where whole records without an
/// end marker are followed by one, the listing is that of the records
/// before it, whatever bytes come after.
pub proof fn lemma_listing_stops_at_end(head: Seq<u8>, tail: Seq<u8>)
    requires
        head.len() % 32 == 0,
        !has_end(head),
        tail.len() >= 32,
        DirectoryRecord::decode(tail).is_end(),
    ensures
        listing(head + tail) == listing(head),
        has_end(head + tail),
    decreases head.len(),
{
    let whole = head + tail;
    if head.len() == 0 {
        assert(whole =~= tail);
    } else {
        assert(head.len() >= 32);
        assert(whole.subrange(0, 32) =~= head.subrange(0, 32));
        lemma_decode_prefix(whole, head.subrange(0, 32));
        lemma_decode_prefix(head, head.subrange(0, 32));
        assert(whole.skip(32) =~= head.skip(32) + tail);
        lemma_listing_stops_at_end(head.skip(32), tail);
    }
}

/// Reading a directory stops at the first cluster that holds an end
/// marker: the clusters after it in the chain add nothing to the listing.
pub proof fn lemma_directory_listing_stops(clusters: Seq<Seq<u8>>, last: int)
    requires
        0 <= last < clusters.len(),
        has_end(clusters[last]),
        forall|k: int| 0 <= k < last ==> !has_end(#[trigger] clusters[k]),
    ensures
        directory_listing(clusters) == directory_listing(clusters.take(last + 1)),
    decreases last,
{
    let kept = clusters.take(last + 1);
    assert(kept[0] == clusters[0]);
    if last > 0 {
        let rest = clusters.drop_first();
        assert forall|k: int| 0 <= k < last - 1 implies !has_end(#[trigger] rest[k]) by {
            assert(rest[k] == clusters[k + 1]);
        }
        assert(rest[last - 1] == clusters[last]);
        lemma_directory_listing_stops(rest, last - 1);
        assert(rest.take(last) =~= kept.drop_first());
    }
}

/// Every record of a listing is a listed one.
pub proof fn lemma_listing_is_listed(data: Seq<u8>)
    ensures
        forall|i: int| 0 <= i < listing(data).len() ==> (#[trigger] listing(data)[i]).is_listed(),
    decreases data.len(),
{
    if data.len() >= 32 {
        let rest = listing(data.skip(32));
        lemma_listing_is_listed(data.skip(32));
        let record = DirectoryRecord::decode(data);
        if !record.is_end() && record.is_listed() {
            assert forall|i: int| 0 <= i < listing(data).len() implies (#[trigger] listing(
                data,
            )[i]).is_listed() by {
                if i > 0 {
                    assert(listing(data)[i] == rest[i - 1]);
                }
            }
        }
    }
}

/// A directory whose clusters so far hold no end marker lists the records
/// of one more cluster after theirs.
pub proof fn lemma_directory_listing_push(clusters: Seq<Seq<u8>>, next: Seq<u8>)
    requires
        forall|k: int| 0 <= k < clusters.len() ==> !has_end(#[trigger] clusters[k]),
    ensures
        directory_listing(clusters.push(next)) == directory_listing(clusters) + listing(next),
    decreases clusters.len(),
{
    let extended = clusters.push(next);
    if clusters.len() == 0 {
        assert(extended.drop_first() =~= Seq::<Seq<u8>>::empty());
        assert(directory_listing(extended.drop_first()) =~= Seq::<DirectoryRecord>::empty());
        assert(extended[0] == next);
        assert(directory_listing(extended) =~= listing(next));
        assert(directory_listing(clusters) + listing(next) =~= listing(next));
    } else {
        let rest = clusters.drop_first();
        assert(extended[0] == clusters[0]);
        assert(extended.drop_first() =~= rest.push(next));
        assert forall|k: int| 0 <= k < rest.len() implies !has_end(#[trigger] rest[k]) by {
            assert(rest[k] == clusters[k + 1]);
        }
        lemma_directory_listing_push(rest, next);
        assert(listing(clusters[0]) + (directory_listing(rest) + listing(next)) =~= (listing(
            clusters[0],
        ) + directory_listing(rest)) + listing(next));
    }
}

/// The decoding of a record reads the first 32 bytes only.
proof fn lemma_decode_prefix(data: Seq<u8>, chunk: Seq<u8>)
    requires
        data.len() >= 32,
        chunk == data.subrange(0, 32),
    ensures
        DirectoryRecord::decode(chunk) == DirectoryRecord::decode(data),
{
    assert(chunk.subrange(0, 11) =~= data.subrange(0, 11));
}

/// Appends to `entries` the records that `data` contributes to a listing,
/// and reports whether the end marker was met.
pub fn scan_records(data: &[u8], entries: &mut Vec<DirectoryEntry>) -> (ended: bool)
    ensures
        records(final(entries)@) == records(old(entries)@) + listing(data@),
        ended == has_end(data@),
{
    let mut offset: usize = 0;
    assert(data@.skip(0) =~= data@);
    while data.len() - offset >= DirectoryEntry::SIZE
        invariant
            offset <= data@.len(),
            records(entries@) + listing(data@.skip(offset as int)) == records(old(entries)@)
                + listing(data@),
            has_end(data@.skip(offset as int)) == has_end(data@),
        decreases data@.len() - offset,
    {
        let ghost tail = data@.skip(offset as int);
        let chunk = slice_subrange(data, offset, offset + DirectoryEntry::SIZE);
        let entry = DirectoryEntry::from_bytes(chunk);
        proof {
            assert(chunk@ =~= tail.subrange(0, 32));
            lemma_decode_prefix(tail, chunk@);
            assert(tail.skip(32) =~= data@.skip(offset + 32));
        }
        if entry.is_end() {
            assert(listing(tail) =~= Seq::<DirectoryRecord>::empty());
            assert(records(entries@) + Seq::<DirectoryRecord>::empty() =~= records(entries@));
            return true;
        }
        if entry.is_valid() && !entry.attributes().is_long_name()
            && !entry.attributes().is_volume_id() {
            let ghost before = entries@;
            entries.push(entry);
            proof {
                assert(records(entries@) =~= records(before).push(entry@));
                assert(records(before).push(entry@) + listing(tail.skip(32)) =~= records(before)
                    + (seq![entry@] + listing(tail.skip(32))));
            }
        }
        offset = offset + DirectoryEntry::SIZE;
    }
    proof {
        assert(listing(data@.skip(offset as int)) =~= Seq::<DirectoryRecord>::empty());
        assert(records(entries@) + Seq::<DirectoryRecord>::empty() =~= records(entries@));
    }
    false
}

/// Finds the first subdirectory among `entries` that the path component
/// `name` selects.
pub fn find_directory(entries: &Vec<DirectoryEntry>, name: &[u8]) -> (found: Option<usize>)
    ensures
        match found {
            Some(at) => {
                &&& at < entries@.len()
                &&& is_directory_named(entries@[at as int]@, name@)
                &&& forall|j: int| 0 <= j < at ==> !is_directory_named(#[trigger] entries@[j]@, name@)
                &&& first_index(records(entries@), directory_named(name@)) == Some(at as int)
            },
            None => {
                &&& forall|j: int|
                    0 <= j < entries@.len() ==> !is_directory_named(#[trigger] entries@[j]@, name@)
                &&& first_index(records(entries@), directory_named(name@)) is None
            },
        },
{
    let ghost listed = records(entries@);
    let ghost wanted = directory_named(name@);
    let mut at: usize = 0;
    while at < entries.len()
        invariant
            at <= entries@.len(),
            listed == records(entries@),
            wanted == directory_named(name@),
            forall|j: int| 0 <= j < at ==> !is_directory_named(#[trigger] entries@[j]@, name@),
            forall|j: int| 0 <= j < at ==> !wanted(#[trigger] listed[j]),
        decreases entries@.len() - at,
    {
        let entry = &entries[at];
        assert(listed[at as int] == entry@);
        if entry.attributes().is_directory() && !entry.is_dot() && !entry.is_dot_dot() {
            let short_name = entry.short_name();
            if eq_ignore_case(short_name.as_str().as_bytes(), name) {
                proof {
                    lemma_first_index(listed, wanted, at as int);
                }
                return Some(at);
            }
        }
        at = at + 1;
    }
    proof {
        lemma_first_index(listed, wanted, at as int);
    }
    None
}

/// Finds the first file among `entries` that the leaf name `name` selects.
pub fn find_file(entries: &Vec<DirectoryEntry>, name: &[u8]) -> (found: Option<usize>)
    ensures
        match found {
            Some(at) => {
                &&& at < entries@.len()
                &&& is_file_named(entries@[at as int]@, name@)
                &&& forall|j: int| 0 <= j < at ==> !is_file_named(#[trigger] entries@[j]@, name@)
                &&& first_index(records(entries@), file_named(name@)) == Some(at as int)
            },
            None => {
                &&& forall|j: int|
                    0 <= j < entries@.len() ==> !is_file_named(#[trigger] entries@[j]@, name@)
                &&& first_index(records(entries@), file_named(name@)) is None
            },
        },
{
    let ghost listed = records(entries@);
    let ghost wanted = file_named(name@);
    let mut at: usize = 0;
    while at < entries.len()
        invariant
            at <= entries@.len(),
            listed == records(entries@),
            wanted == file_named(name@),
            forall|j: int| 0 <= j < at ==> !is_file_named(#[trigger] entries@[j]@, name@),
            forall|j: int| 0 <= j < at ==> !wanted(#[trigger] listed[j]),
        decreases entries@.len() - at,
    {
        let entry = &entries[at];
        assert(listed[at as int] == entry@);
        if !entry.attributes().is_directory() {
            let short_name = entry.short_name();
            if eq_ignore_case(short_name.as_str().as_bytes(), name) {
                proof {
                    lemma_first_index(listed, wanted, at as int);
                }
                return Some(at);
            }
        }
        at = at + 1;
    }
    proof {
        lemma_first_index(listed, wanted, at as int);
    }
    None
}

/// Finds the cluster of the parent directory in the listing of a
/// directory: the cluster that its first `..` record refers to.
pub fn find_parent_cluster(entries: &Vec<DirectoryEntry>, root: u32) -> (found: Option<u32>)
    ensures
        found == parent(records(entries@), root),
{
    let ghost listed = records(entries@);
    let ghost wanted = parent_record();
    let mut at: usize = 0;
    while at < entries.len()
        invariant
            at <= entries@.len(),
            listed == records(entries@),
            wanted == parent_record(),
            forall|j: int| 0 <= j < at ==> !wanted(#[trigger] listed[j]),
        decreases entries@.len() - at,
    {
        let entry = &entries[at];
        assert(listed[at as int] == entry@);
        if entry.is_dot_dot() {
            proof {
                lemma_first_index(listed, wanted, at as int);
            }
            let named: u32 = entry.first_cluster();
            return Some(if named == 0 { root } else { named });
        }
        at = at + 1;
    }
    proof {
        lemma_first_index(listed, wanted, at as int);
    }
    None
}

/// Looks up the subdirectory that the path component `name` selects in
/// the listing of a directory, and answers with its cluster.
pub fn select_directory(entries: &Vec<DirectoryEntry>, name: &[u8]) -> (found: Result<
    u32,
    Fat32Error,
>)
    ensures
        found == answer(subdirectory(records(entries@), name@)),
{
    match find_directory(entries, name) {
        Some(at) => {
            assert(records(entries@)[at as int] == entries@[at as int]@);
            Ok(entries[at].first_cluster())
        },
        None => Err(Fat32Error::NotFound),
    }
}

/// Looks up the parent in the listing of a directory, and answers with its
/// cluster.
pub fn select_parent(entries: &Vec<DirectoryEntry>, root: u32) -> (found: Result<u32, Fat32Error>)
    ensures
        found == answer(parent(records(entries@), root)),
{
    match find_parent_cluster(entries, root) {
        Some(cluster) => Ok(cluster),
        None => Err(Fat32Error::NotFound),
    }
}

/// Looks up the file that the leaf name `name` selects in the listing of a
/// directory, and answers with its first cluster and its size.
pub fn select_file(entries: &Vec<DirectoryEntry>, name: &[u8]) -> (found: Result<
    (u32, u32),
    Fat32Error,
>)
    ensures
        found == answer(file(records(entries@), name@)),
{
    match find_file(entries, name) {
        Some(at) => {
            assert(records(entries@)[at as int] == entries@[at as int]@);
            Ok((entries[at].first_cluster(), entries[at].file_size()))
        },
        None => Err(Fat32Error::NotFound),
    }
}

/// Finds the cluster at which the chain of a file's contents starts, if the
/// file has any contents.
pub fn file_start(first: u32, size: u32) -> (start: Option<u32>)
    ensures
        start == contents_start(first, size),
{
    if size == 0 {
        None
    } else {
        Some(first)
    }
}

} // verus!
