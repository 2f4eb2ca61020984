//! The uploads on disk: their names and numbers, and which of them must go.

use std::path::Path;
use std::path::PathBuf;

use vstd::prelude::*;
use vstd::relations::sorted_by;

use crate::decimal::decimal;
use crate::decimal::decimal_reads_back;
use crate::decimal::parse_usize;
use crate::decimal::push_decimal;
use crate::decimal::usize_value;
use crate::text::chars_of;
use crate::text::text_of;
use crate::text::texts;

verus! {

/// What the names of all uploads start with.
pub const UPLOAD_PREFIX: &'static str = "looper-temp-";

/// The name of the upload with a number.
pub open spec fn upload_name(id: usize) -> Seq<char> {
    UPLOAD_PREFIX@ + decimal(id as nat)
}

/// The number of the upload with a name, if an upload can have this name.
pub open spec fn upload_id(name: Seq<char>) -> Option<usize> {
    if UPLOAD_PREFIX@.is_prefix_of(name) {
        usize_value(name.skip(UPLOAD_PREFIX@.len() as int))
    } else {
        None
    }
}

/// The number of an upload is read back from its name, so no two uploads share a name.
pub proof fn upload_name_reads_back(id: usize)
    ensures
        upload_id(upload_name(id)) == Some(id),
{
    decimal_reads_back(id);
    assert(upload_name(id).skip(UPLOAD_PREFIX@.len() as int) =~= decimal(id as nat));
    assert(upload_name(id).take(UPLOAD_PREFIX@.len() as int) =~= UPLOAD_PREFIX@);
}

/// Uploads are named by the prefix and their number, and a name is that of the upload with a
/// number exactly if it is the prefix with a text behind it that is read as the number.
pub proof fn uploads_go_by_prefix_and_number(name: Seq<char>, id: usize)
    ensures
        upload_name(id) == "looper-temp-"@ + decimal(id as nat),
        upload_id(name) == Some(id) <==> exists|number: Seq<char>|
            name == #[trigger] ("looper-temp-"@ + number) && usize_value(number) == Some(id),
{
    let n = UPLOAD_PREFIX@.len() as int;
    if upload_id(name) == Some(id) {
        assert(name =~= UPLOAD_PREFIX@ + name.skip(n));
    }
    if exists|number: Seq<char>|
        name == #[trigger] ("looper-temp-"@ + number) && usize_value(number) == Some(id) {
        let number = choose|number: Seq<char>|
            name == #[trigger] ("looper-temp-"@ + number) && usize_value(number) == Some(id);
        assert(name.skip(n) =~= number);
        assert(name.take(n) =~= UPLOAD_PREFIX@);
    }
}

/// The path of a file in a directory.
pub uninterp spec fn path_in(dir: &Path, name: Seq<char>) -> PathBuf;

/// `Path::join`: the path of the file in the directory.
#[verifier::external_body]
fn join_path(dir: &Path, name: &str) -> (path: PathBuf)
    ensures
        path == path_in(dir, name@),
{
    dir.join(name)
}

/// The name of the upload with a number.
pub fn name_from_id(id: usize) -> (name: String)
    ensures
        name@ == upload_name(id),
{
    let mut name = String::new();
    name.append(UPLOAD_PREFIX);
    push_decimal(&mut name, id as u64);
    assert(name@ =~= upload_name(id));
    name
}

/// The path of the upload with a number.
pub fn make_path_from_id(temp_dir: &Path, id: usize) -> (path: PathBuf)
    ensures
        path == path_in(temp_dir, upload_name(id)),
{
    join_path(temp_dir, name_from_id(id).as_str())
}

/// The path of the upload whose number a client names. Whatever else the client writes names
/// no path at all.
pub fn path_from_id_text(temp_dir: &Path, id: &str) -> (path: Option<PathBuf>)
    ensures
        path == match usize_value(id@) {
            Some(n) => Some(path_in(temp_dir, upload_name(n))),
            None => None,
        },
{
    match parse_usize(id) {
        Some(n) => Some(make_path_from_id(temp_dir, n)),
        None => None,
    }
}

/// The number of the upload with a name, if an upload can have this name.
pub fn id_from_name(name: &str) -> (id: Option<usize>)
    ensures
        id == upload_id(name@),
{
    let chars = chars_of(name);
    let prefix = chars_of(UPLOAD_PREFIX);
    if chars.len() < prefix.len() {
        return None;
    }
    let mut i: usize = 0;
    while i < prefix.len()
        invariant
            i <= prefix@.len() <= chars@.len(),
            prefix@ == UPLOAD_PREFIX@,
            chars@ == name@,
            forall|j: int| 0 <= j < i ==> #[trigger] prefix@[j] == chars@[j],
        decreases prefix@.len() - i,
    {
        if chars[i] != prefix[i] {
            return None;
        }
        i += 1;
    }
    assert(chars@.take(prefix@.len() as int) =~= prefix@);
    let number = text_of(&chars, prefix.len(), chars.len());
    assert(number@ =~= name@.skip(prefix@.len() as int));
    parse_usize(number.as_str())
}

/// A number above that of every upload among the names: the least such from one on.
pub open spec fn is_next_id(names: Seq<Seq<char>>, next: int) -> bool {
    &&& next >= 1
    &&& forall|i: int|
        0 <= i < names.len() ==> (upload_id(#[trigger] names[i]) matches Some(id) ==> id < next)
    &&& next == 1 || exists|i: int|
        0 <= i < names.len() && (upload_id(#[trigger] names[i]) matches Some(id) && id == next - 1)
}

/// An upload that gets its number after a restart takes the name of none that was there.
pub proof fn next_ids_are_fresh(names: Seq<Seq<char>>, first: int, id: usize)
    requires
        is_next_id(names, first),
        first <= id,
    ensures
        !names.contains(upload_name(id)),
{
    upload_name_reads_back(id);
}

/// The number after a restart is the least from one on that is above the number of every
/// upload there is, and it is the only such.
pub proof fn next_id_is_the_least(names: Seq<Seq<char>>, next: int, other: int)
    requires
        is_next_id(names, next),
        other >= 1,
        forall|i: int|
            0 <= i < names.len() ==> (upload_id(#[trigger] names[i]) matches Some(id) ==> id < other),
    ensures
        1 <= next <= other,
        forall|i: int|
            0 <= i < names.len() ==> (upload_id(#[trigger] names[i]) matches Some(id) ==> id < next),
{
    if next > 1 {
        let i = choose|i: int|
            0 <= i < names.len() && (upload_id(#[trigger] names[i]) matches Some(id) && id == next
                - 1);
        assert(upload_id(names[i]) is Some);
    }
}

/// The number for the first upload after a restart, from the names of the files that are
/// there.
pub fn next_upload_id(names: &Vec<String>) -> (next: usize)
    requires
        forall|i: int| 0 <= i < names@.len() ==> upload_id(#[trigger] texts(names@)[i]) != Some(
            usize::MAX,
        ),
    ensures
        is_next_id(texts(names@), next as int),
{
    let ghost all = texts(names@);
    let mut highest: usize = 0;
    let mut i: usize = 0;
    while i < names.len()
        invariant
            i <= names@.len(),
            all == texts(names@),
            highest < usize::MAX,
            forall|j: int| 0 <= j < all.len() ==> upload_id(#[trigger] all[j]) != Some(usize::MAX),
            forall|j: int|
                0 <= j < i ==> (upload_id(#[trigger] all[j]) matches Some(id) ==> id <= highest),
            highest == 0 || exists|j: int|
                0 <= j < i && upload_id(#[trigger] all[j]) == Some(highest),
        decreases names@.len() - i,
    {
        assert(all[i as int] == names@[i as int]@);
        if let Some(id) = id_from_name(names[i].as_str()) {
            if id > highest {
                highest = id;
            }
        }
        i += 1;
    }
    highest + 1
}

/// Bytes that all uploads together may take.
pub const MAX_TOTAL_UPLOAD: u64 = 2 * 1024 * 1024 * 1024;

/// For how long a file may lie untouched: a day, in nanoseconds.
pub const MAX_IDLE_NANOS: u128 = 60 * 60 * 24 * 1_000_000_000;

/// What is known of a file in the directory of the uploads.
#[derive(Debug)]
pub struct StoredFile {
    /// Its name, if it is text.
    pub name: Option<String>,
    /// Its size in bytes.
    pub size: u64,
    /// For how long nobody has touched it, if that is known.
    pub idle_nanos: Option<u128>,
}

impl StoredFile {
    /// The file has lain untouched for too long.
    pub open spec fn expired(&self) -> bool {
        self.idle_nanos matches Some(idle) && idle > MAX_IDLE_NANOS
    }

    /// The number of the upload that the file holds, if it holds one.
    pub open spec fn id(&self) -> Option<usize> {
        match self.name {
            Some(name) => upload_id(name@),
            None => None,
        }
    }
}

/// The bytes that uploads take, each a number and a size.
pub open spec fn total(files: Seq<(usize, u64)>) -> nat
    decreases files.len(),
{
    if files.len() == 0 {
        0
    } else {
        total(files.drop_first()) + files.first().1 as nat
    }
}

/// The uploads that count against the limit once one more file has been seen: an upload
/// counts unless it has expired.
pub open spec fn counting(files: Seq<(usize, u64)>, file: StoredFile) -> Seq<(usize, u64)> {
    match file.id() {
        Some(id) if !file.expired() => files.push((id, file.size)),
        _ => files,
    }
}

/// The uploads that count against the limit once files have been seen.
pub open spec fn counted(seen: Seq<StoredFile>) -> Seq<(usize, u64)>
    decreases seen.len(),
{
    if seen.len() == 0 {
        Seq::<(usize, u64)>::empty()
    } else {
        counting(counted(seen.drop_last()), seen.last())
    }
}

/// A file has expired once it has lain untouched for more than a day, as far as that is known,
/// and it holds an upload if its name is that of one.
pub proof fn a_day_is_the_limit(file: StoredFile, id: usize)
    ensures
        file.expired() <==> (file.idle_nanos matches Some(idle) && idle > 24 * 3600 * 1_000_000_000),
        file.id() == Some(id) <==> (file.name matches Some(name) && upload_id(name@) == Some(id)),
{
}

/// The bytes of uploads add up, and a single one takes its size.
pub proof fn sizes_add_up(a: Seq<(usize, u64)>, b: Seq<(usize, u64)>, id: usize, size: u64)
    ensures
        total(a + b) == total(a) + total(b),
        total(seq![(id, size)]) == size,
    decreases a.len(),
{
    assert(seq![(id, size)].drop_first() =~= Seq::<(usize, u64)>::empty());
    assert(total(Seq::<(usize, u64)>::empty()) == 0);
    if a.len() == 0 {
        assert(a + b =~= b);
    } else {
        sizes_add_up(a.drop_first(), b, id, size);
        assert((a + b).drop_first() =~= a.drop_first() + b);
    }
}

/// Every upload counts, however many there are: a number and a size count as often as there
/// are files that hold an upload with this number, have this size and have not lain untouched
/// for more than a day.
pub proof fn every_upload_counts(seen: Seq<StoredFile>, x: (usize, u64))
    ensures
        counted(seen).to_multiset().count(x) == seen.filter(
            |file: StoredFile|
                file.id() == Some(x.0) && file.size == x.1 && !(file.idle_nanos matches Some(idle)
                    && idle > 24 * 3600 * 1_000_000_000),
        ).len(),
    decreases seen.len(),
{
    broadcast use vstd::seq_lib::group_to_multiset_ensures;
    broadcast use vstd::multiset::group_multiset_axioms;

    reveal(Seq::filter);
    if seen.len() == 0 {
        assert(counted(seen).to_multiset() =~= vstd::multiset::Multiset::empty());
    } else {
        every_upload_counts(seen.drop_last(), x);
    }
}

/// The bytes that are held to the limit are those of all uploads that have not lain untouched
/// for more than a day.
pub proof fn all_bytes_count(seen: Seq<StoredFile>)
    ensures
        total(counted(seen)) == seen.fold_left(
            0int,
            |sum: int, file: StoredFile|
                if file.id() is Some && !(file.idle_nanos matches Some(idle) && idle > 24 * 3600
                    * 1_000_000_000) {
                    sum + file.size
                } else {
                    sum
                },
        ),
    decreases seen.len(),
{
    reveal_with_fuel(Seq::fold_left, 2);
    if seen.len() > 0 {
        all_bytes_count(seen.drop_last());
        let before = counted(seen.drop_last());
        if let Some(id) = seen.last().id() {
            sizes_add_up(before, seq![(id, seen.last().size)], id, seen.last().size);
            assert(before.push((id, seen.last().size)) =~= before + seq![(id, seen.last().size)]);
        }
    }
}

/// The order in which uploads go: by number, then by size.
pub open spec fn age_order() -> spec_fn((usize, u64), (usize, u64)) -> bool {
    |a: (usize, u64), b: (usize, u64)| a.0 < b.0 || (a.0 == b.0 && a.1 <= b.1)
}

/// Of uploads in a row, those from the front that are too many.
pub open spec fn surplus(row: Seq<(usize, u64)>) -> Seq<(usize, u64)>
    decreases row.len(),
{
    if row.len() == 0 || total(row) <= MAX_TOTAL_UPLOAD {
        Seq::<(usize, u64)>::empty()
    } else {
        seq![row.first()] + surplus(row.drop_first())
    }
}

/// The uploads that must go, in the order in which they do.
pub open spec fn evicted(files: Seq<(usize, u64)>) -> Seq<(usize, u64)> {
    surplus(files.sort_by(age_order()))
}

/// The uploads that stay, in the same order.
pub open spec fn kept(files: Seq<(usize, u64)>) -> Seq<(usize, u64)> {
    let row = files.sort_by(age_order());
    row.skip(surplus(row).len() as int)
}

proof fn lemma_surplus(row: Seq<(usize, u64)>)
    ensures
        surplus(row).len() <= row.len(),
        surplus(row) == row.take(surplus(row).len() as int),
        total(row.skip(surplus(row).len() as int)) <= MAX_TOTAL_UPLOAD,
        surplus(row).len() > 0 ==> total(row.skip(surplus(row).len() - 1)) > MAX_TOTAL_UPLOAD,
    decreases row.len(),
{
    if row.len() == 0 || total(row) <= MAX_TOTAL_UPLOAD {
        assert(row.skip(0) =~= row);
        assert(row.take(0) =~= Seq::<(usize, u64)>::empty());
    } else {
        let rest = row.drop_first();
        lemma_surplus(rest);
        let n = surplus(rest).len() as int;
        assert(row.take(n + 1) =~= seq![row.first()] + rest.take(n));
        assert(row.skip(n + 1) =~= rest.skip(n));
        if n > 0 {
            assert(row.skip(n) =~= rest.skip(n - 1));
        } else {
            assert(row.skip(0) =~= row);
        }
    }
}

proof fn lemma_total_of_rearranged(a: Seq<(usize, u64)>, b: Seq<(usize, u64)>)
    requires
        a.to_multiset() == b.to_multiset(),
    ensures
        total(a) == total(b),
    decreases a.len(),
{
    broadcast use vstd::seq_lib::group_to_multiset_ensures;
    broadcast use vstd::multiset::group_multiset_axioms;

    assert(a.to_multiset().len() == a.len());
    assert(b.to_multiset().len() == b.len());
    if a.len() > 0 {
        let x = a.first();
        assert(a.to_multiset().count(x) > 0) by {
            assert(a.contains(a[0]));
        }
        assert(b.contains(x));
        let k = choose|k: int| 0 <= k < b.len() && b[k] == x;
        lemma_total_without(b, k);
        assert(a.remove(0) =~= a.drop_first());
        assert(a.drop_first().to_multiset() =~= b.remove(k).to_multiset());
        lemma_total_of_rearranged(a.drop_first(), b.remove(k));
    }
}

proof fn lemma_total_without(files: Seq<(usize, u64)>, k: int)
    requires
        0 <= k < files.len(),
    ensures
        total(files) == total(files.remove(k)) + files[k].1,
    decreases files.len(),
{
    if k == 0 {
        assert(files.remove(0) =~= files.drop_first());
    } else {
        lemma_total_without(files.drop_first(), k - 1);
        assert(files.remove(k).drop_first() =~= files.drop_first().remove(k - 1));
    }
}

/// Enough goes, the oldest first, and no more than must: what stays fits the limit, whatever
/// goes is older than all that stays, nothing is lost or invented, and the last upload that
/// goes does not fit.
pub proof fn eviction_is_right(files: Seq<(usize, u64)>)
    ensures
        (evicted(files) + kept(files)).to_multiset() == files.to_multiset(),
        total(kept(files)) <= MAX_TOTAL_UPLOAD,
        forall|i: int, j: int|
            0 <= i < evicted(files).len() && 0 <= j < kept(files).len() ==> age_order()(
                #[trigger] evicted(files)[i],
                #[trigger] kept(files)[j],
            ),
        evicted(files).len() > 0 ==> evicted(files).last().1 + total(kept(files))
            > MAX_TOTAL_UPLOAD,
        evicted(files).len() == 0 <==> total(files) <= MAX_TOTAL_UPLOAD,
{
    let row = files.sort_by(age_order());
    files.lemma_sort_by_ensures(age_order());
    lemma_surplus(row);
    let n = surplus(row).len() as int;
    assert(evicted(files) + kept(files) =~= row);
    lemma_total_of_rearranged(row, files);
    if n > 0 {
        let tail = row.skip(n - 1);
        assert(tail.drop_first() =~= row.skip(n));
        assert(tail.first() == evicted(files).last());
    }
}

/// Uploads go from the lowest number on, of one number the smallest first, and no number that
/// goes is above one that stays. What stays takes two gibibytes at most.
pub proof fn lowest_numbers_go_first(files: Seq<(usize, u64)>)
    ensures
        forall|i: int, j: int|
            0 <= i < j < evicted(files).len() ==> {
                let (a, b) = (#[trigger] evicted(files)[i], #[trigger] evicted(files)[j]);
                a.0 < b.0 || (a.0 == b.0 && a.1 <= b.1)
            },
        forall|i: int, j: int|
            0 <= i < evicted(files).len() && 0 <= j < kept(files).len() ==> {
                let (a, b) = (#[trigger] evicted(files)[i], #[trigger] kept(files)[j]);
                a.0 < b.0 || (a.0 == b.0 && a.1 <= b.1)
            },
        total(files) == total(evicted(files)) + total(kept(files)),
        total(kept(files)) <= 2 * 1024 * 1024 * 1024,
        evicted(files).len() > 0 ==> evicted(files).last().1 + total(kept(files)) > 2 * 1024 * 1024
            * 1024,
{
    let row = files.sort_by(age_order());
    files.lemma_sort_by_ensures(age_order());
    eviction_is_right(files);
    lemma_surplus(row);
    lemma_total_of_rearranged(evicted(files) + kept(files), files);
    sizes_add_up(evicted(files), kept(files), 0, 0);
    assert forall|i: int, j: int| 0 <= i < j < evicted(files).len() implies ({
        let (a, b) = (#[trigger] evicted(files)[i], #[trigger] evicted(files)[j]);
        a.0 < b.0 || (a.0 == b.0 && a.1 <= b.1)
    }) by {
        assert(age_order()(row[i], row[j]));
    }
    assert forall|i: int, j: int|
        0 <= i < evicted(files).len() && 0 <= j < kept(files).len() implies ({
        let (a, b) = (#[trigger] evicted(files)[i], #[trigger] kept(files)[j]);
        a.0 < b.0 || (a.0 == b.0 && a.1 <= b.1)
    }) by {
        assert(age_order()(evicted(files)[i], kept(files)[j]));
    }
}

proof fn lemma_counted(seen: Seq<StoredFile>, x: (usize, u64))
    requires
        counted(seen).contains(x),
    ensures
        exists|i: int|
            0 <= i < seen.len() && !(#[trigger] seen[i]).expired() && seen[i].id() == Some(x.0)
                && seen[i].size == x.1,
    decreases seen.len(),
{
    let init = seen.drop_last();
    if counted(init).contains(x) {
        lemma_counted(init, x);
        let i = choose|i: int|
            0 <= i < init.len() && !(#[trigger] init[i]).expired() && init[i].id() == Some(x.0)
                && init[i].size == x.1;
        assert(seen[i] == init[i]);
    } else {
        let k = choose|k: int| 0 <= k < counted(seen).len() && counted(seen)[k] == x;
        assert(seen.len() > 0);
        assert(k == counted(init).len()) by {
            if k < counted(init).len() {
                assert(counted(init)[k] == x);
            }
        }
        assert(seen[seen.len() - 1] == seen.last());
    }
}

/// Only uploads are ever sacrificed to the limit, and none that had expired already: each
/// that goes is one of the files that were seen.
pub proof fn evicted_was_seen(seen: Seq<StoredFile>, k: int)
    requires
        0 <= k < evicted(counted(seen)).len(),
    ensures
        exists|i: int|
            0 <= i < seen.len() && !(#[trigger] seen[i]).expired() && seen[i].id() == Some(
                evicted(counted(seen))[k].0,
            ) && seen[i].size == evicted(counted(seen))[k].1,
{
    let files = counted(seen);
    let row = files.sort_by(age_order());
    files.lemma_sort_by_ensures(age_order());
    lemma_surplus(row);
    let x = evicted(files)[k];
    assert(row[k] == x);
    assert(row.contains(x));
    lemma_counted(seen, x);
}

/// `slice::sort_unstable` on pairs of integers, which std compares by the first, then by the
/// second: afterwards the same pairs stand in ascending order.
#[verifier::external_body]
fn sort_by_age(files: &mut Vec<(usize, u64)>)
    ensures
        final(files)@.to_multiset() == old(files)@.to_multiset(),
        sorted_by(final(files)@, age_order()),
{
    files.sort_unstable();
}

/// The uploads that are found in their directory and count against the limit.
pub struct Cleanup {
    files: Vec<(usize, u64)>,
}

impl Cleanup {
    /// The uploads seen so far that may stay for their age.
    pub closed spec fn files(&self) -> Seq<(usize, u64)> {
        self.files@
    }

    /// Starts with none.
    pub fn new() -> (cleanup: Self)
        ensures
            cleanup.files() == Seq::<(usize, u64)>::empty(),
    {
        Cleanup { files: Vec::new() }
    }

    /// Looks at one file and tells whether it must be removed at once for its age. Of the
    /// others, an upload counts against the limit; any other file is left alone.
    pub fn observe(&mut self, file: &StoredFile) -> (remove: bool)
        ensures
            remove == file.expired(),
            final(self).files() == counting(old(self).files(), *file),
    {
        if let Some(idle) = file.idle_nanos {
            if idle > MAX_IDLE_NANOS {
                return true;
            }
        }
        if let Some(name) = &file.name {
            if let Some(id) = id_from_name(name.as_str()) {
                self.files.push((id, file.size));
            }
        }
        false
    }

    /// The bytes that the uploads take which count, unless 64 bits cannot tell.
    pub fn total_size(&self) -> (size: Option<u64>)
        ensures
            match size {
                Some(size) => size == total(self.files()),
                None => total(self.files()) > u64::MAX,
            },
    {
        let mut size: u64 = 0;
        let mut i: usize = self.files.len();
        assert(self.files@.skip(i as int) =~= Seq::<(usize, u64)>::empty());
        while i > 0
            invariant
                i <= self.files@.len(),
                size == total(self.files@.skip(i as int)),
            decreases i,
        {
            i -= 1;
            assert(self.files@.skip(i as int).drop_first() =~= self.files@.skip(i + 1));
            size = match size.checked_add(self.files[i].1) {
                Some(sum) => sum,
                None => {
                    proof {
                        lemma_total_of_tail(self.files@, i as int);
                    }
                    return None;
                },
            };
        }
        assert(self.files@.skip(0) =~= self.files@);
        Some(size)
    }

    /// The uploads that must be removed, in this order, so that the others fit the limit.
    pub fn finish(self) -> (removed: Vec<(usize, u64)>)
        requires
            total(self.files()) <= u64::MAX,
        ensures
            removed@ == evicted(self.files()),
    {
        let ghost all = self.files@;
        let size = self.total_size();
        let mut files = self.files;
        sort_by_age(&mut files);
        let ghost row = files@;
        proof {
            all.lemma_sort_by_ensures(age_order());
            vstd::seq_lib::lemma_sorted_unique(row, all.sort_by(age_order()), age_order());
            lemma_total_of_rearranged(row, all);
        }
        let mut left: u64 = match size {
            Some(size) => size,
            None => 0,
        };
        let mut removed: Vec<(usize, u64)> = Vec::new();
        let mut i: usize = 0;
        assert(row.skip(0) =~= row);
        assert(removed@ + surplus(row.skip(0)) =~= surplus(row));
        while left > MAX_TOTAL_UPLOAD
            invariant
                i <= files.len(),
                files@ == row,
                left == total(row.skip(i as int)),
                removed@ + surplus(row.skip(i as int)) == surplus(row),
            decreases files@.len() - i,
        {
            assert(row.skip(i as int).drop_first() =~= row.skip(i + 1));
            let ghost before = removed@;
            let file = files[i];
            removed.push(file);
            assert(removed@ + surplus(row.skip(i + 1)) =~= before + (seq![file] + surplus(
                row.skip(i + 1),
            )));
            left -= file.1;
            i += 1;
        }
        assert(removed@ =~= surplus(row));
        removed
    }
}

proof fn lemma_total_of_tail(files: Seq<(usize, u64)>, k: int)
    requires
        0 <= k <= files.len(),
    ensures
        total(files.skip(k)) <= total(files),
    decreases k,
{
    if k == 0 {
        assert(files.skip(0) =~= files);
    } else {
        lemma_total_of_tail(files, k - 1);
        assert(files.skip(k - 1).drop_first() =~= files.skip(k));
    }
}

/// Where a tour through the directory of the uploads stands.
#[derive(Debug, Clone, Copy, PartialEq, Eq, Structural)]
pub enum TourStage {
    /// The files are looked at, one by one.
    Scanning,
    /// The file that was looked at is being removed.
    RemovingFile,
    /// Uploads are being removed for the limit.
    Evicting,
    Finished,
}

/// What happens on a tour.
#[derive(Debug)]
pub enum TourEvent {
    /// The next file of the directory.
    File(StoredFile),
    /// There are no more files.
    EndOfDirectory,
    /// The removal of a file has been tried, with or without success.
    Removed(bool),
}

/// What to do next on a tour.
#[derive(Debug, Clone, Copy, PartialEq, Eq, Structural)]
pub enum TourAction {
    /// Look at the next file.
    NextFile,
    /// Remove the file that was looked at.
    RemoveFile,
    /// Remove the upload with a number, of a size.
    RemoveUpload { id: usize, size: u64 },
    Finish,
}

/// How far a tour has come.
pub struct TourState {
    pub stage: TourStage,
    /// The uploads seen so far that count against the limit.
    pub files: Seq<(usize, u64)>,
    /// The uploads that are still to be removed for it.
    pub pending: Seq<(usize, u64)>,
}

/// An event that can happen at this point.
pub open spec fn tour_expected(s: TourState, event: TourEvent) -> bool {
    match event {
        TourEvent::File(_) => s.stage == TourStage::Scanning,
        TourEvent::EndOfDirectory => s.stage == TourStage::Scanning && total(s.files) <= u64::MAX,
        TourEvent::Removed(_) => s.stage == TourStage::RemovingFile || s.stage
            == TourStage::Evicting,
    }
}

/// The next of the uploads that must go is removed, until none is left.
pub open spec fn evicting(s: TourState) -> (TourState, TourAction) {
    if s.pending.len() == 0 {
        (TourState { stage: TourStage::Finished, ..s }, TourAction::Finish)
    } else {
        (
            TourState { stage: TourStage::Evicting, pending: s.pending.drop_first(), ..s },
            TourAction::RemoveUpload { id: s.pending.first().0, size: s.pending.first().1 },
        )
    }
}

/// What an event leads to.
pub open spec fn tour_advanced(s: TourState, event: TourEvent) -> (TourState, TourAction) {
    match event {
        TourEvent::File(file) => {
            let files = counting(s.files, file);
            if file.expired() {
                (TourState { stage: TourStage::RemovingFile, files, ..s }, TourAction::RemoveFile)
            } else {
                (TourState { stage: TourStage::Scanning, files, ..s }, TourAction::NextFile)
            }
        },
        TourEvent::EndOfDirectory => evicting(
            TourState { files: Seq::empty(), pending: evicted(s.files), ..s },
        ),
        TourEvent::Removed(_) => if s.stage == TourStage::RemovingFile {
            (TourState { stage: TourStage::Scanning, ..s }, TourAction::NextFile)
        } else {
            evicting(s)
        },
    }
}

/// Where a tour starts.
pub open spec fn tour_started() -> TourState {
    TourState { stage: TourStage::Scanning, files: Seq::empty(), pending: Seq::empty() }
}

/// How far events lead.
pub open spec fn tour_reached(events: Seq<TourEvent>) -> TourState
    decreases events.len(),
{
    if events.len() == 0 {
        tour_started()
    } else {
        tour_advanced(tour_reached(events.drop_last()), events.last()).0
    }
}

/// Events that can happen one after the other.
pub open spec fn tour_possible(events: Seq<TourEvent>) -> bool
    decreases events.len(),
{
    events.len() > 0 ==> {
        &&& tour_possible(events.drop_last())
        &&& tour_expected(tour_reached(events.drop_last()), events.last())
    }
}

/// All that events ask to be done.
pub open spec fn tour_actions(events: Seq<TourEvent>) -> Seq<TourAction>
    decreases events.len(),
{
    if events.len() == 0 {
        Seq::empty()
    } else {
        let init = events.drop_last();
        tour_actions(init).push(tour_advanced(tour_reached(init), events.last()).1)
    }
}

/// The files that come with events.
pub open spec fn files_in(events: Seq<TourEvent>) -> Seq<StoredFile>
    decreases events.len(),
{
    if events.len() == 0 {
        Seq::empty()
    } else {
        let before = files_in(events.drop_last());
        match events.last() {
            TourEvent::File(file) => before.push(file),
            _ => before,
        }
    }
}

/// The uploads that events ask to be removed for the limit.
pub open spec fn evictions_in(events: Seq<TourEvent>) -> Seq<(usize, u64)>
    decreases events.len(),
{
    if events.len() == 0 {
        Seq::empty()
    } else {
        let init = events.drop_last();
        match tour_advanced(tour_reached(init), events.last()).1 {
            TourAction::RemoveUpload { id, size } => evictions_in(init).push((id, size)),
            _ => evictions_in(init),
        }
    }
}

/// Two events are the same but for the success of a removal.
pub open spec fn alike(a: TourEvent, b: TourEvent) -> bool {
    a == b || (a is Removed && b is Removed)
}

/// A removal that fails is as good as one that succeeds: whichever fail, the tour goes on in
/// the same way, asks for the same removals in the same order, and ends as it would have.
pub proof fn failed_removals_change_nothing(a: Seq<TourEvent>, b: Seq<TourEvent>)
    requires
        a.len() == b.len(),
        forall|i: int| 0 <= i < a.len() ==> alike(#[trigger] a[i], b[i]),
    ensures
        tour_possible(a) == tour_possible(b),
        tour_reached(a) == tour_reached(b),
        tour_actions(a) == tour_actions(b),
    decreases a.len(),
{
    if a.len() > 0 {
        let x = a.drop_last();
        let y = b.drop_last();
        assert forall|i: int| 0 <= i < x.len() implies alike(#[trigger] x[i], y[i]) by {
            assert(alike(a[i], b[i]));
        }
        failed_removals_change_nothing(x, y);
        assert(alike(a[a.len() - 1], b[b.len() - 1]));
    }
}

proof fn lemma_tour(events: Seq<TourEvent>)
    requires
        tour_possible(events),
    ensures
        ({
            let s = tour_reached(events);
            let must_go = evicted(counted(files_in(events)));
            if s.stage == TourStage::Scanning || s.stage == TourStage::RemovingFile {
                &&& s.files == counted(files_in(events))
                &&& evictions_in(events).len() == 0
                &&& s.pending.len() == 0
            } else {
                &&& evictions_in(events) + s.pending == must_go
                &&& s.stage == TourStage::Finished ==> s.pending.len() == 0
            }
        }),
    decreases events.len(),
{
    if events.len() > 0 {
        let init = events.drop_last();
        let event = events.last();
        lemma_tour(init);
        let before = tour_reached(init);
        match event {
            TourEvent::File(file) => {
                assert(files_in(events).drop_last() =~= files_in(init));
            },
            TourEvent::EndOfDirectory => {
                let must_go = evicted(before.files);
                assert(evictions_in(events) + tour_reached(events).pending =~= must_go);
            },
            TourEvent::Removed(_) => {
                if before.stage == TourStage::Evicting {
                    assert(evictions_in(events) + tour_reached(events).pending =~= evictions_in(init)
                        + before.pending);
                }
            },
        }
    }
}

/// When a tour ends, each upload that must go for the limit has been tried once, in the order
/// in which they must go, and none has been tried in place of another: none is tried more
/// often than it was found.
pub proof fn finished_tour_tried_each_eviction_once(events: Seq<TourEvent>)
    requires
        tour_possible(events),
        tour_reached(events).stage == TourStage::Finished,
    ensures
        evictions_in(events) == evicted(counted(files_in(events))),
        forall|x: (usize, u64)| #[trigger]
            evictions_in(events).to_multiset().count(x) <= counted(
                files_in(events),
            ).to_multiset().count(x),
{
    broadcast use vstd::multiset::group_multiset_axioms;

    lemma_tour(events);
    assert(evictions_in(events) + tour_reached(events).pending =~= evictions_in(events));
    let files = counted(files_in(events));
    eviction_is_right(files);
    vstd::seq_lib::lemma_multiset_commutative(evicted(files), kept(files));
}

/// The removals that have been tried, with or without success.
pub open spec fn removals(outcomes: Seq<bool>) -> Seq<TourEvent> {
    outcomes.map_values(|removed: bool| TourEvent::Removed(removed))
}

/// A tour that removes uploads ends after as many removals as are still to be tried, with the
/// one under way, whatever becomes of them.
pub proof fn evictions_come_to_an_end(events: Seq<TourEvent>, outcomes: Seq<bool>)
    requires
        tour_possible(events),
        tour_reached(events).stage == TourStage::Evicting,
        outcomes.len() == tour_reached(events).pending.len() + 1,
    ensures
        tour_possible(events + removals(outcomes)),
        tour_reached(events + removals(outcomes)).stage == TourStage::Finished,
{
    lemma_evictions(events, outcomes);
}

proof fn lemma_evictions(events: Seq<TourEvent>, outcomes: Seq<bool>)
    requires
        tour_possible(events),
        tour_reached(events).stage == TourStage::Evicting,
        outcomes.len() <= tour_reached(events).pending.len() + 1,
    ensures
        tour_possible(events + removals(outcomes)),
        ({
            let s = tour_reached(events + removals(outcomes));
            if outcomes.len() <= tour_reached(events).pending.len() {
                &&& s.stage == TourStage::Evicting
                &&& s.pending == tour_reached(events).pending.skip(outcomes.len() as int)
            } else {
                s.stage == TourStage::Finished
            }
        }),
    decreases outcomes.len(),
{
    let pending = tour_reached(events).pending;
    let all = events + removals(outcomes);
    if outcomes.len() == 0 {
        assert(all =~= events);
        assert(pending.skip(0) =~= pending);
    } else {
        let init = outcomes.drop_last();
        lemma_evictions(events, init);
        assert(all.drop_last() =~= events + removals(init));
        assert(all.last() == TourEvent::Removed(outcomes.last()));
        if outcomes.len() <= pending.len() {
            assert(pending.skip(init.len() as int).drop_first() =~= pending.skip(
                outcomes.len() as int,
            ));
        }
    }
}

/// What may happen first, and what may happen next: the directory has a file or ends, and
/// after that an event answers what was asked for last. It may end only if the bytes of the
/// uploads can be counted.
pub proof fn tour_events_answer_what_was_asked(
    events: Seq<TourEvent>,
    last: TourEvent,
    next: TourEvent,
)
    requires
        tour_possible(events.push(last)),
    ensures
        tour_possible(seq![next]) <==> next is File || next is EndOfDirectory,
        ({
            let action = tour_advanced(tour_reached(events), last).1;
            tour_possible(events.push(last).push(next)) <==> match next {
                TourEvent::File(_) => action is NextFile,
                TourEvent::EndOfDirectory => action is NextFile && total(
                    counted(files_in(events.push(last))),
                ) <= u64::MAX,
                TourEvent::Removed(_) => action is RemoveFile || action is RemoveUpload,
            }
        }),
{
    let all = events.push(last);
    assert(all.drop_last() =~= events);
    assert(all.push(next).drop_last() =~= all);
    assert(seq![next].drop_last() =~= Seq::<TourEvent>::empty());
    assert(tour_possible(Seq::<TourEvent>::empty()));
    assert(tour_reached(Seq::<TourEvent>::empty()) == tour_started());
    lemma_tour(all);
}

/// The files that come with events come in their order.
pub proof fn files_come_in_order(events: Seq<TourEvent>, event: TourEvent)
    ensures
        files_in(Seq::<TourEvent>::empty()).len() == 0,
        files_in(events.push(event)) == match event {
            TourEvent::File(file) => files_in(events).push(file),
            _ => files_in(events),
        },
{
    assert(events.push(event).drop_last() =~= events);
}

/// The tour goes on with the next file behind a file that may stay for its age, and behind the
/// attempt to remove one that may not.
pub proof fn tour_sees_every_file(events: Seq<TourEvent>, event: TourEvent)
    requires
        tour_possible(events.push(event)),
        !events.contains(TourEvent::EndOfDirectory),
    ensures
        match event {
            TourEvent::File(file) => tour_advanced(tour_reached(events), event).1 is NextFile <==> !(
            file.idle_nanos matches Some(idle) && idle > 24 * 3600 * 1_000_000_000),
            TourEvent::EndOfDirectory => !(tour_advanced(tour_reached(events), event).1 is NextFile),
            TourEvent::Removed(_) => tour_advanced(tour_reached(events), event).1 is NextFile,
        },
{
    assert(events.push(event).drop_last() =~= events);
    lemma_scanning(events);
}

proof fn lemma_scanning(events: Seq<TourEvent>)
    requires
        tour_possible(events),
        !events.contains(TourEvent::EndOfDirectory),
    ensures
        tour_reached(events).stage == TourStage::Scanning || tour_reached(events).stage
            == TourStage::RemovingFile,
    decreases events.len(),
{
    if events.len() > 0 {
        let init = events.drop_last();
        assert forall|i: int| 0 <= i < init.len() implies init[i] != TourEvent::EndOfDirectory by {
            assert(events.contains(events[i]));
        }
        lemma_scanning(init);
        assert(events.contains(events[events.len() - 1]));
    }
}

/// Once the directory has been looked through, the uploads that must go for the limit are
/// removed one after the other, each attempt followed by the next, whatever became of it, and
/// the tour ends behind the last.
pub proof fn evictions_follow_the_scan(scan: Seq<TourEvent>, outcomes: Seq<bool>)
    requires
        tour_possible(scan.push(TourEvent::EndOfDirectory)),
        outcomes.len() <= evicted(counted(files_in(scan))).len(),
    ensures
        ({
            let all = scan.push(TourEvent::EndOfDirectory) + removals(outcomes);
            let must_go = evicted(counted(files_in(scan)));
            let action = tour_advanced(tour_reached(all.drop_last()), all.last()).1;
            &&& tour_possible(all)
            &&& action == if outcomes.len() < must_go.len() {
                TourAction::RemoveUpload {
                    id: must_go[outcomes.len() as int].0,
                    size: must_go[outcomes.len() as int].1,
                }
            } else {
                TourAction::Finish
            }
        }),
{
    lemma_evictions_of_scan(scan, outcomes);
}

proof fn lemma_evictions_of_scan(scan: Seq<TourEvent>, outcomes: Seq<bool>)
    requires
        tour_possible(scan.push(TourEvent::EndOfDirectory)),
        outcomes.len() <= evicted(counted(files_in(scan))).len(),
    ensures
        ({
            let all = scan.push(TourEvent::EndOfDirectory) + removals(outcomes);
            let must_go = evicted(counted(files_in(scan)));
            let n = outcomes.len() as int;
            let after = tour_advanced(tour_reached(all.drop_last()), all.last());
            &&& tour_possible(all)
            &&& tour_reached(all) == after.0
            &&& if n < must_go.len() {
                &&& after.0.stage == TourStage::Evicting
                &&& after.0.pending == must_go.skip(n + 1)
                &&& after.1 == (TourAction::RemoveUpload { id: must_go[n].0, size: must_go[n].1 })
            } else {
                after.1 is Finish
            }
        }),
    decreases outcomes.len(),
{
    let ended = scan.push(TourEvent::EndOfDirectory);
    let all = ended + removals(outcomes);
    let must_go = evicted(counted(files_in(scan)));
    assert(ended.drop_last() =~= scan);
    lemma_tour(scan);
    if outcomes.len() == 0 {
        assert(all =~= ended);
        assert(must_go.drop_first() =~= must_go.skip(1));
    } else {
        let init = outcomes.drop_last();
        lemma_evictions_of_scan(scan, init);
        assert(all.drop_last() =~= ended + removals(init));
        assert(all.last() == TourEvent::Removed(outcomes.last()));
        let pending = must_go.skip(init.len() as int + 1);
        if outcomes.len() < must_go.len() {
            assert(pending.drop_first() =~= must_go.skip(outcomes.len() as int + 1));
        }
    }
}

/// What a tour leaves fits the limit: when it ends, the bytes of all uploads that were seen and
/// had not lain untouched for more than a day are two gibibytes at most, without those that
/// were asked to be removed.
pub proof fn finished_tour_leaves_what_fits(events: Seq<TourEvent>)
    requires
        tour_possible(events),
        tour_reached(events).stage == TourStage::Finished,
    ensures
        files_in(events).fold_left(
            0int,
            |sum: int, file: StoredFile|
                if file.id() is Some && !(file.idle_nanos matches Some(idle) && idle > 24 * 3600
                    * 1_000_000_000) {
                    sum + file.size
                } else {
                    sum
                },
        ) - total(evictions_in(events)) <= 2 * 1024 * 1024 * 1024,
{
    finished_tour_tried_each_eviction_once(events);
    all_bytes_count(files_in(events));
    lowest_numbers_go_first(counted(files_in(events)));
}

/// All that events ask to be done is what each of them asks for, in their order, and the
/// uploads among it are what is asked to be removed for the limit.
pub proof fn actions_come_one_for_each_event(events: Seq<TourEvent>, event: TourEvent)
    ensures
        tour_actions(Seq::<TourEvent>::empty()).len() == 0,
        evictions_in(Seq::<TourEvent>::empty()).len() == 0,
        ({
            let action = tour_advanced(tour_reached(events), event).1;
            &&& tour_actions(events.push(event)) == tour_actions(events).push(action)
            &&& evictions_in(events.push(event)) == match action {
                TourAction::RemoveUpload { id, size } => evictions_in(events).push((id, size)),
                _ => evictions_in(events),
            }
        }),
{
    assert(events.push(event).drop_last() =~= events);
}

/// Wherever a tour stands, a file is removed for its age exactly when it is seen and has
/// expired.
pub proof fn only_expired_files_are_removed(s: TourState, event: TourEvent)
    ensures
        tour_advanced(s, event).1 is RemoveFile <==> (event matches TourEvent::File(file)
            && file.expired()),
{
}

/// A tour through the directory of the uploads that makes room for new ones.
pub struct Tour {
    stage: TourStage,
    cleanup: Cleanup,
    evicted: Vec<(usize, u64)>,
    next: usize,
}

impl View for Tour {
    type V = TourState;

    closed spec fn view(&self) -> TourState {
        TourState {
            stage: self.stage,
            files: self.cleanup.files(),
            pending: self.evicted@.skip(self.next as int),
        }
    }
}

impl Tour {
    #[verifier::type_invariant]
    spec fn next_within_evicted(self) -> bool {
        self.next <= self.evicted@.len()
    }

    /// Starts a tour at the first file of the directory.
    pub fn new() -> (tour: Self)
        ensures
            tour@ == tour_started(),
    {
        let tour = Tour {
            stage: TourStage::Scanning,
            cleanup: Cleanup::new(),
            evicted: Vec::new(),
            next: 0,
        };
        assert(tour@.pending =~= Seq::<(usize, u64)>::empty());
        tour
    }

    /// The bytes that the uploads take which count, unless 64 bits cannot tell.
    pub fn total_size(&self) -> (size: Option<u64>)
        ensures
            match size {
                Some(size) => size == total(self@.files),
                None => total(self@.files) > u64::MAX,
            },
    {
        self.cleanup.total_size()
    }

    /// Removes the next of the uploads that must go, if there is one.
    fn evict(&mut self) -> (action: TourAction)
        ensures
            (final(self)@, action) == evicting(old(self)@),
    {
        proof {
            use_type_invariant(&*self);
        }
        let ghost pending = self@.pending;
        if self.next == self.evicted.len() {
            self.stage = TourStage::Finished;
            return TourAction::Finish;
        }
        let (id, size) = self.evicted[self.next];
        self.next = self.next + 1;
        self.stage = TourStage::Evicting;
        assert(self@.pending =~= pending.drop_first());
        TourAction::RemoveUpload { id, size }
    }

    /// Takes note of what has happened and says what to do next.
    pub fn filelimit_cleanup(&mut self, event: TourEvent) -> (action: TourAction)
        requires
            tour_expected(old(self)@, event),
        ensures
            (final(self)@, action) == tour_advanced(old(self)@, event),
    {
        proof {
            use_type_invariant(&*self);
        }
        match event {
            TourEvent::File(file) => {
                let mut cleanup = Cleanup::new();
                std::mem::swap(&mut cleanup, &mut self.cleanup);
                let remove = cleanup.observe(&file);
                self.cleanup = cleanup;
                if remove {
                    self.stage = TourStage::RemovingFile;
                    TourAction::RemoveFile
                } else {
                    TourAction::NextFile
                }
            },
            TourEvent::EndOfDirectory => {
                let mut cleanup = Cleanup::new();
                std::mem::swap(&mut cleanup, &mut self.cleanup);
                self.next = 0;
                self.evicted = cleanup.finish();
                assert(self@.pending =~= self.evicted@);
                self.evict()
            },
            TourEvent::Removed(_) => if let TourStage::RemovingFile = self.stage {
                self.stage = TourStage::Scanning;
                TourAction::NextFile
            } else {
                self.evict()
            },
        }
    }
}

/// The upload with a number is at one place, under its name, and a client that names the number
/// is led there; a client that names no number is led nowhere.
pub proof fn numbers_lead_to_uploads(
    dir: &Path,
    id: usize,
    name: String,
    path: PathBuf,
    text: &str,
    named: Option<PathBuf>,
)
    requires
        call_ensures(name_from_id, (id,), name),
        call_ensures(make_path_from_id, (dir, id), path),
        call_ensures(path_from_id_text, (dir, text), named),
    ensures
        name@ == "looper-temp-"@ + decimal(id as nat),
        path == path_in(dir, name@),
        usize_value(text@) == Some(id) ==> named == Some(path),
        usize_value(text@) is None <==> named is None,
{
    uploads_go_by_prefix_and_number(name@, id);
}

/// The number of an upload is read back from its name, and from no name that is not the prefix
/// and a number.
pub proof fn names_lead_back_to_numbers(name: &str, found: Option<usize>, id: usize)
    requires
        call_ensures(id_from_name, (name,), found),
    ensures
        name@ == "looper-temp-"@ + decimal(id as nat) ==> found == Some(id),
        found == Some(id) <==> exists|number: Seq<char>|
            name@ == #[trigger] ("looper-temp-"@ + number) && usize_value(number) == Some(id),
{
    uploads_go_by_prefix_and_number(name@, id);
    upload_name_reads_back(id);
}

/// After a restart the numbers go on right behind the highest that is in use, from one on: the
/// name of no upload from there on is taken.
pub proof fn numbers_go_on_behind_the_highest(names: &Vec<String>, next: usize, id: usize, k: int)
    requires
        call_ensures(next_upload_id, (names,), next),
        0 <= k < names@.len(),
    ensures
        next >= 1,
        upload_id(names@[k]@) matches Some(taken) ==> taken < next,
        next <= id ==> names@[k]@ != upload_name(id),
        next == 1 || exists|i: int|
            0 <= i < names@.len() && (upload_id((#[trigger] names@[i])@) matches Some(taken) && taken
                == next - 1),
{
    let all = texts(names@);
    assert(all[k] == names@[k]@);
    upload_name_reads_back(id);
    if next != 1 {
        let i = choose|i: int|
            0 <= i < all.len() && (upload_id(#[trigger] all[i]) matches Some(taken) && taken == next
                - 1);
        assert(all[i] == names@[i]@);
    }
}

/// A file is to be removed at once exactly if it has lain untouched for more than a day. If it
/// is not, and holds an upload, it counts with its number and its size, whatever counted
/// before; nothing else that counted changes.
pub proof fn observed_uploads_count(cleanup: &mut Cleanup, file: &StoredFile, remove: bool)
    requires
        call_ensures(Cleanup::observe, (cleanup, file), remove),
    ensures
        remove <==> (file.idle_nanos matches Some(idle) && idle > 24 * 3600 * 1_000_000_000),
        final(cleanup).files() == match file.name {
            Some(name) => match upload_id(name@) {
                Some(id) => if remove {
                    old(cleanup).files()
                } else {
                    old(cleanup).files().push((id, file.size))
                },
                None => old(cleanup).files(),
            },
            None => old(cleanup).files(),
        },
{
    a_day_is_the_limit(*file, 0);
}

/// Of the uploads that count, as few as can be are to be removed so that the rest takes two
/// gibibytes at most: the first of them when they are ordered by number, then by size.
pub proof fn cleanup_removes_as_few_as_can_be(cleanup: Cleanup, removed: Vec<(usize, u64)>)
    requires
        call_ensures(Cleanup::finish, (cleanup,), removed),
    ensures
        exists|rest: Seq<(usize, u64)>|
            {
                let row = removed@ + rest;
                &&& #[trigger] (removed@ + rest).to_multiset() == cleanup.files().to_multiset()
                &&& forall|i: int, j: int|
                    0 <= i < j < row.len() ==> {
                        let (a, b) = (#[trigger] row[i], #[trigger] row[j]);
                        a.0 < b.0 || (a.0 == b.0 && a.1 <= b.1)
                    }
                &&& total(rest) <= 2 * 1024 * 1024 * 1024
                &&& removed@.len() > 0 ==> removed@.last().1 + total(rest) > 2 * 1024 * 1024 * 1024
            },
{
    let files = cleanup.files();
    let row = files.sort_by(age_order());
    files.lemma_sort_by_ensures(age_order());
    lemma_surplus(row);
    eviction_is_right(files);
    lowest_numbers_go_first(files);
    let rest = kept(files);
    assert(removed@ + rest =~= row);
    assert((removed@ + rest).to_multiset() == files.to_multiset());
    assert forall|i: int, j: int| 0 <= i < j < row.len() implies ({
        let (a, b) = (#[trigger] row[i], #[trigger] row[j]);
        a.0 < b.0 || (a.0 == b.0 && a.1 <= b.1)
    }) by {
        assert(age_order()(row[i], row[j]));
    }
}

/// The bytes of the uploads that count are told as long as 64 bits hold them.
pub proof fn sizes_are_told(cleanup: &Cleanup, size: Option<u64>)
    requires
        call_ensures(Cleanup::total_size, (cleanup,), size),
    ensures
        size is Some <==> total(cleanup.files()) <= u64::MAX,
        size matches Some(bytes) ==> bytes == total(cleanup.files()),
{
}

/// A tour starts with nothing seen and goes through its runs event by event: it asks for what
/// the event asks for, and has come as far as the event leads.
pub proof fn tour_goes_through_its_runs(
    fresh: Tour,
    tour: &mut Tour,
    events: Seq<TourEvent>,
    event: TourEvent,
    action: TourAction,
)
    requires
        call_ensures(Tour::new, (), fresh),
        call_ensures(Tour::filelimit_cleanup, (tour, event), action),
        old(tour)@ == tour_reached(events),
    ensures
        fresh@ == tour_reached(Seq::<TourEvent>::empty()),
        final(tour)@ == tour_reached(events.push(event)),
        action == tour_advanced(tour_reached(events), event).1,
{
    assert(events.push(event).drop_last() =~= events);
}

/// A tour tells the bytes of all uploads that it has seen and that may stay for their age, as
/// long as 64 bits hold them and none has been chosen to go.
pub proof fn tour_tells_the_sizes(tour: &Tour, events: Seq<TourEvent>, size: Option<u64>)
    requires
        call_ensures(Tour::total_size, (tour,), size),
        tour_possible(events),
        !events.contains(TourEvent::EndOfDirectory),
        tour@ == tour_reached(events),
    ensures
        ({
            let bytes = files_in(events).fold_left(
                0int,
                |sum: int, file: StoredFile|
                    if file.id() is Some && !(file.idle_nanos matches Some(idle) && idle > 24 * 3600
                        * 1_000_000_000) {
                        sum + file.size
                    } else {
                        sum
                    },
            );
            match size {
                Some(told) => told == bytes,
                None => bytes > u64::MAX,
            }
        }),
{
    lemma_scanning(events);
    lemma_tour(events);
    all_bytes_count(files_in(events));
}

} // verus!
