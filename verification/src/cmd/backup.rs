//! The decisions of the backup command: which snapshot number comes next,
//! and how a directory's entry is put together from its contents.
use vstd::prelude::*;
use vstd::slice::slice_subrange;
use vstd::utf8::*;

use vstd::multiset::Multiset;
use vstd::seq_lib::{to_multiset_insert, to_multiset_remove};

use crate::cmd::common::snapshot_key_text;
use crate::data::backup::sub_dir_entry::Content;
use crate::data::backup::{DirEntry, FileEntry, SubDirEntry};
use crate::util::io::{error_kind, io_error_kind, IoErrorKind};
use crate::util::text::{
    bytes_equal, bytes_in_order, bytes_le, decimal_text, lemma_bytes_le_total,
    lemma_bytes_le_transitive, lemma_decimal_text, lemma_encode_utf8_concat, parse_u32, parsed_u32,
};

verus! {

/// Treats a write whose target already exists as done: the stored item has
/// the same content, as items are stored under the hash of their content.
pub fn ignore_already_exists<T>(result: std::io::Result<T>) -> (r: std::io::Result<()>)
    ensures
        match result {
            Ok(_) => r is Ok,
            Err(e) => if io_error_kind(e) == IoErrorKind::AlreadyExists {
                r is Ok
            } else {
                r matches Err(e2) && e2 == e
            },
        },
{
    match result {
        Ok(_) => Ok(()),
        Err(e) => {
            if let IoErrorKind::AlreadyExists = error_kind(&e) {
                Ok(())
            } else {
                Err(e)
            }
        },
    }
}

/// The size of the chunks that files are stored in, in bytes.
pub const CHUNK_SIZE: usize = 1048576;

/// The arguments of the backup command (it has none).
pub struct BackupArgs {}

/// Whether `name` holds exactly one `/`, at index `j`.
pub open spec fn single_separator_at(name: Seq<u8>, j: int) -> bool {
    &&& 0 <= j < name.len()
    &&& name[j] == 0x2F
    &&& forall|i: int| 0 <= i < name.len() && i != j ==> #[trigger] name[i] != 0x2F
}

/// The number of a snapshot from its stored name `<archive>/<number>`, for
/// the given archive. Names of other archives, names that do not split
/// into exactly two parts at `/`, and numbers that do not parse as `u32`
/// give `None`.
pub open spec fn snapshot_number(name: Seq<u8>, archive: Seq<u8>) -> Option<u32> {
    if exists|j: int| single_separator_at(name, j) {
        let j = choose|j: int| single_separator_at(name, j);
        if name.take(j) == archive {
            parsed_u32(name.skip(j + 1))
        } else {
            None
        }
    } else {
        None
    }
}

/// The highest snapshot number of an archive among stored names, 0 if
/// there is none.
pub open spec fn highest_snapshot(names: Seq<Seq<u8>>, archive: Seq<u8>) -> u32
    decreases names.len(),
{
    if names.len() == 0 {
        0
    } else {
        let rest = highest_snapshot(names.drop_last(), archive);
        match snapshot_number(names.last(), archive) {
            Some(n) => if n > rest {
                n
            } else {
                rest
            },
            None => rest,
        }
    }
}

/// The UTF-8 bytes of each of a sequence of strings.
pub open spec fn utf8_names(names: Seq<String>) -> Seq<Seq<u8>> {
    names.map_values(|s: String| encode_utf8(s@))
}

proof fn lemma_separator_unique(name: Seq<u8>, j1: int, j2: int)
    requires
        single_separator_at(name, j1),
        single_separator_at(name, j2),
    ensures
        j1 == j2,
{
    if j1 != j2 {
        assert(name[j2] != 0x2F);
    }
}

/// The snapshot number that a stored name gives for an archive.
fn snapshot_number_of(name: &[u8], archive: &[u8]) -> (r: Option<u32>)
    ensures
        r == snapshot_number(name@, archive@),
{
    let len = name.len();
    let mut separator: Option<usize> = None;
    let mut i: usize = 0;
    while i < len
        invariant
            len == name@.len(),
            0 <= i <= len,
            separator is None ==> forall|k: int| 0 <= k < i ==> #[trigger] name@[k] != 0x2F,
            separator matches Some(j) ==> {
                &&& j < i
                &&& name@[j as int] == 0x2F
                &&& forall|k: int| 0 <= k < i && k != j ==> #[trigger] name@[k] != 0x2F
            },
        decreases len - i,
    {
        if name[i] == 0x2F {
            if let Some(first) = separator {
                assert forall|j: int| !single_separator_at(name@, j) by {
                    if j != first as int {
                        assert(name@[first as int] == 0x2F);
                    } else {
                        assert(name@[i as int] == 0x2F);
                    }
                }
                return None;
            }
            separator = Some(i);
        }
        i = i + 1;
    }
    let j = match separator {
        None => {
            assert forall|j: int| !single_separator_at(name@, j) by {
                if 0 <= j < len {
                    assert(name@[j] != 0x2F);
                }
            }
            return None;
        },
        Some(j) => j,
    };
    assert(single_separator_at(name@, j as int));
    proof {
        let c = choose|c: int| single_separator_at(name@, c);
        lemma_separator_unique(name@, c, j as int);
    }
    if j != archive.len() {
        assert(name@.take(j as int).len() != archive@.len());
        return None;
    }
    let mut k: usize = 0;
    while k < j
        invariant
            j == archive@.len(),
            j < name@.len(),
            0 <= k <= j,
            forall|m: int| 0 <= m < k ==> name@[m] == archive@[m],
        decreases j - k,
    {
        if name[k] != archive[k] {
            assert(name@.take(j as int)[k as int] != archive@[k as int]);
            return None;
        }
        k = k + 1;
    }
    assert(name@.take(j as int) =~= archive@);
    let number_text = slice_subrange(name, j + 1, len);
    assert(number_text@ =~= name@.skip(j + 1));
    parse_u32(number_text)
}

/// The highest number among the stored snapshot names of an archive, 0 when
/// it has none.
pub fn get_highest_snapshot_number(snapshot_names: &Vec<String>, archive_name: &str) -> (highest: u32)
    ensures
        highest == highest_snapshot(utf8_names(snapshot_names@), encode_utf8(archive_name@)),
{
    let archive = archive_name.as_bytes();
    let ghost names = utf8_names(snapshot_names@);
    let mut highest: u32 = 0;
    let mut i: usize = 0;
    while i < snapshot_names.len()
        invariant
            0 <= i <= snapshot_names@.len(),
            names == utf8_names(snapshot_names@),
            archive@ == encode_utf8(archive_name@),
            highest == highest_snapshot(names.take(i as int), archive@),
        decreases snapshot_names@.len() - i,
    {
        let name = snapshot_names[i].as_str().as_bytes();
        let number = snapshot_number_of(name, archive);
        proof {
            assert(names.take(i + 1).drop_last() =~= names.take(i as int));
            assert(names.take(i + 1).last() == name@);
        }
        if let Some(n) = number {
            if n > highest {
                highest = n;
            }
        }
        i = i + 1;
    }
    assert(names.take(snapshot_names@.len() as int) =~= names);
    highest
}

/// Whether a byte sequence holds no `/`.
pub open spec fn has_no_separator(bytes: Seq<u8>) -> bool {
    forall|i: int| 0 <= i < bytes.len() ==> #[trigger] bytes[i] != 0x2F
}

/// The highest snapshot number is at least the number of every snapshot of
/// the archive among the names, and it is 0 or one of those numbers.
pub proof fn lemma_highest_snapshot_is_maximum(names: Seq<Seq<u8>>, archive: Seq<u8>)
    ensures
        forall|i: int|
            0 <= i < names.len() && (#[trigger] snapshot_number(names[i], archive)) is Some
                ==> snapshot_number(names[i], archive).unwrap() <= highest_snapshot(names, archive),
        highest_snapshot(names, archive) == 0 || exists|i: int|
            0 <= i < names.len() && snapshot_number(names[i], archive) == Some(
                highest_snapshot(names, archive),
            ),
    decreases names.len(),
{
    if names.len() > 0 {
        let rest = names.drop_last();
        lemma_highest_snapshot_is_maximum(rest, archive);
        assert forall|i: int|
            0 <= i < names.len() && (#[trigger] snapshot_number(names[i], archive)) is Some
                implies snapshot_number(names[i], archive).unwrap() <= highest_snapshot(
            names,
            archive,
        ) by {
            if i < names.len() - 1 {
                assert(names[i] == rest[i]);
            }
        }
        if highest_snapshot(names, archive) != 0 {
            if highest_snapshot(names, archive) == highest_snapshot(rest, archive) {
                let i = choose|i: int|
                    0 <= i < rest.len() && snapshot_number(rest[i], archive) == Some(
                        highest_snapshot(rest, archive),
                    );
                assert(names[i] == rest[i]);
            } else {
                assert(snapshot_number(names[names.len() - 1], archive) == Some(
                    highest_snapshot(names, archive),
                ));
            }
        }
    }
}

/// A stored name counts as a snapshot of an archive only when the archive's
/// name is all of the name before its one `/`: the name is longer than the
/// archive's name, begins with it, has a `/` right after it and no `/`
/// anywhere else.
pub proof fn lemma_snapshot_of_archive_only(name: Seq<u8>, archive: Seq<u8>)
    ensures
        snapshot_number(name, archive) is Some ==> {
            &&& archive.len() < name.len()
            &&& name.take(archive.len() as int) == archive
            &&& name[archive.len() as int] == 0x2F
            &&& forall|i: int|
                0 <= i < name.len() && i != archive.len() ==> #[trigger] name[i] != 0x2F
        },
{
    if snapshot_number(name, archive) is Some {
        let j = choose|j: int| single_separator_at(name, j);
        assert(name.take(j) == archive);
        assert(j == archive.len());
    }
}

/// A name `<other>/<rest>` stored for another archive, even one whose name
/// begins with this archive's name, leaves this archive's highest snapshot
/// number as it was.
pub proof fn lemma_other_archive_ignored(
    names: Seq<Seq<u8>>,
    archive: Seq<u8>,
    other: Seq<u8>,
    rest: Seq<u8>,
)
    requires
        other != archive,
    ensures
        highest_snapshot(names.push(other + seq![0x2Fu8] + rest), archive) == highest_snapshot(
            names,
            archive,
        ),
{
    let name = other + seq![0x2Fu8] + rest;
    lemma_snapshot_of_archive_only(name, archive);
    if snapshot_number(name, archive) is Some {
        assert(name[other.len() as int] == 0x2F);
        assert(other.len() == archive.len());
        assert(name.take(other.len() as int) =~= other);
    }
    assert(names.push(name).drop_last() =~= names);
}

/// The key of the snapshot numbered `n` gives `n` back as its snapshot
/// number, for an archive whose name holds no `/`.
pub proof fn lemma_numbered_key_number(archive: Seq<char>, n: u32)
    requires
        has_no_separator(encode_utf8(archive)),
    ensures
        snapshot_number(
            encode_utf8(snapshot_key_text(archive, decimal_text(n as nat))),
            encode_utf8(archive),
        ) == Some(n),
{
    let a = encode_utf8(archive);
    let d = encode_utf8(decimal_text(n as nat));
    let slash = seq!['/'];
    assert(encode_utf8(slash) =~= seq![0x2Fu8]) by {
        assert(is_ascii_chars(slash));
        is_ascii_chars_encode_utf8(slash);
    }
    lemma_encode_utf8_concat(archive, slash);
    lemma_encode_utf8_concat(archive + slash, decimal_text(n as nat));
    lemma_decimal_text(n as nat);
    let name = encode_utf8(snapshot_key_text(archive, decimal_text(n as nat)));
    assert(name =~= a + seq![0x2Fu8] + d);
    let j = a.len() as int;
    assert forall|i: int| 0 <= i < name.len() && i != j implies #[trigger] name[i] != 0x2F by {
        if i < j {
            assert(name[i] == a[i]);
        } else {
            assert(name[i] == d[i - j - 1]);
        }
    }
    assert(single_separator_at(name, j));
    let c = choose|c: int| single_separator_at(name, c);
    lemma_separator_unique(name, c, j);
    assert(name.take(j) =~= a);
    assert(name.skip(j + 1) =~= d);
    assert(d[0] != 0x2B);
}

/// A new snapshot numbered one above the highest number of an archive
/// becomes its highest snapshot, for an archive whose name holds no `/`.
pub proof fn lemma_next_snapshot_is_highest(names: Seq<Seq<u8>>, archive: Seq<char>)
    requires
        has_no_separator(encode_utf8(archive)),
        highest_snapshot(names, encode_utf8(archive)) < u32::MAX,
    ensures
        ({
            let n = (highest_snapshot(names, encode_utf8(archive)) + 1) as u32;
            highest_snapshot(
                names.push(encode_utf8(snapshot_key_text(archive, decimal_text(n as nat)))),
                encode_utf8(archive),
            ) == n
        }),
{
    let n = (highest_snapshot(names, encode_utf8(archive)) + 1) as u32;
    let key = encode_utf8(snapshot_key_text(archive, decimal_text(n as nat)));
    lemma_numbered_key_number(archive, n);
    assert(names.push(key).drop_last() =~= names);
}

/// An entry of a directory listing, known by its name.
pub trait Named {
    /// The UTF-8 bytes of the entry's name.
    spec fn name_bytes(&self) -> Seq<u8>;

    /// The entry's name.
    fn name_str(&self) -> (name: &str)
        ensures
            encode_utf8(name@) == self.name_bytes(),
    ;
}

impl Named for FileEntry {
    open spec fn name_bytes(&self) -> Seq<u8> {
        encode_utf8(self.name@)
    }

    fn name_str(&self) -> (name: &str) {
        self.name.as_str()
    }
}

impl Named for SubDirEntry {
    open spec fn name_bytes(&self) -> Seq<u8> {
        encode_utf8(self.name@)
    }

    fn name_str(&self) -> (name: &str) {
        self.name.as_str()
    }
}

/// Whether entries are in the order of their names.
pub open spec fn sorted_by_name<T: Named>(entries: Seq<T>) -> bool {
    forall|i: int, j: int|
        0 <= i < j < entries.len() ==> bytes_le(
            #[trigger] entries[i].name_bytes(),
            #[trigger] entries[j].name_bytes(),
        )
}

/// `sorted` holds entries of `input` at the positions `idx` (entry `k` of
/// `sorted` is entry `idx[k]` of `input`, no position taken twice), and
/// entries of equal names keep the order they had in `input`.
pub open spec fn stable_rearrangement<T: Named>(sorted: Seq<T>, input: Seq<T>, idx: Seq<int>) -> bool {
    &&& idx.len() == sorted.len()
    &&& forall|k: int|
        0 <= k < idx.len() ==> 0 <= #[trigger] idx[k] < input.len() && sorted[k] == input[idx[k]]
    &&& forall|k1: int, k2: int|
        0 <= k1 < k2 < idx.len() ==> #[trigger] idx[k1] != #[trigger] idx[k2]
    &&& forall|k1: int, k2: int|
        0 <= k1 < k2 < idx.len() && (#[trigger] sorted[k1]).name_bytes() == (
        #[trigger] sorted[k2]).name_bytes() ==> idx[k1] < idx[k2]
}

proof fn lemma_bytes_le_reflexive(a: Seq<u8>)
    ensures
        bytes_le(a, a),
    decreases a.len(),
{
    if a.len() > 0 {
        lemma_bytes_le_reflexive(a.drop_first());
    }
}

/// Sorts entries by name (byte-wise lexicographic order, as `str`
/// compares), keeping entries of equal names in their order.
pub fn sort_by_name<T: Named>(entries: Vec<T>) -> (sorted: Vec<T>)
    ensures
        sorted_by_name(sorted@),
        sorted@.to_multiset() == entries@.to_multiset(),
        sorted@.len() == entries@.len(),
        exists|idx: Seq<int>| stable_rearrangement(sorted@, entries@, idx),
{
    broadcast use vstd::seq_lib::group_to_multiset_ensures, vstd::multiset::group_multiset_axioms;

    let ghost input = entries@;
    let mut rest = entries;
    assert(Seq::<T>::empty().to_multiset() =~= Multiset::empty());
    assert(Multiset::<T>::empty().add(input.to_multiset()) =~= input.to_multiset());
    let mut sorted: Vec<T> = Vec::new();
    let ghost mut idx: Seq<int> = Seq::empty();
    assert(input.skip(0) =~= input);
    while rest.len() > 0
        invariant
            sorted_by_name(sorted@),
            sorted@.to_multiset().add(rest@.to_multiset()) == input.to_multiset(),
            sorted@.len() + rest@.len() == input.len(),
            rest@ == input.skip(sorted@.len() as int),
            stable_rearrangement(sorted@, input, idx),
            forall|k: int| 0 <= k < idx.len() ==> #[trigger] idx[k] < sorted@.len(),
        decreases rest@.len(),
    {
        let ghost m = sorted@.len() as int;
        let ghost rest_before = rest@;
        let ghost sorted_before = sorted@;
        let x = rest.remove(0);
        proof {
            to_multiset_remove(rest_before, 0);
            assert(rest_before[0] == x);
            assert(rest_before.contains(x));
            vstd::seq_lib::to_multiset_contains(rest_before, x);
            assert(rest_before.to_multiset().count(x) > 0);
        }
        let mut p: usize = 0;
        while p < sorted.len() && bytes_in_order(
            sorted[p].name_str().as_bytes(),
            x.name_str().as_bytes(),
        )
            invariant
                0 <= p <= sorted@.len(),
                forall|q: int| 0 <= q < p ==> bytes_le(#[trigger] sorted@[q].name_bytes(), x.name_bytes()),
            decreases sorted@.len() - p,
        {
            p = p + 1;
        }
        let ghost before = sorted@;
        proof {
            assert(x == input[m]);
            if p < before.len() {
                assert forall|q: int| p <= q < before.len() implies (#[trigger] before[q]).name_bytes()
                    != x.name_bytes() by {
                    if before[q].name_bytes() == x.name_bytes() {
                        lemma_bytes_le_reflexive(x.name_bytes());
                        if q > p {
                            assert(bytes_le(before[p as int].name_bytes(), before[q].name_bytes()));
                        }
                    }
                }
                lemma_bytes_le_total(before[p as int].name_bytes(), x.name_bytes());
                assert forall|q: int| p <= q < before.len() implies bytes_le(
                    x.name_bytes(),
                    #[trigger] before[q].name_bytes(),
                ) by {
                    if q > p {
                        lemma_bytes_le_transitive(
                            x.name_bytes(),
                            before[p as int].name_bytes(),
                            before[q].name_bytes(),
                        );
                    }
                }
            }
        }
        sorted.insert(p, x);
        proof {
            to_multiset_insert(before, p as int, x);
            let now = sorted@;
            let old_idx = idx;
            idx = old_idx.insert(p as int, m);
            assert forall|k: int| 0 <= k < idx.len() implies 0 <= #[trigger] idx[k] < input.len()
                && now[k] == input[idx[k]] && idx[k] < now.len() by {
                if k < p {
                    assert(idx[k] == old_idx[k] && now[k] == before[k]);
                } else if k > p {
                    assert(idx[k] == old_idx[k - 1] && now[k] == before[k - 1]);
                }
            }
            assert forall|k1: int, k2: int| 0 <= k1 < k2 < idx.len() implies #[trigger] idx[k1]
                != #[trigger] idx[k2] by {
                if k1 != p && k2 != p {
                    let o1 = if k1 < p { k1 } else { k1 - 1 };
                    let o2 = if k2 < p { k2 } else { k2 - 1 };
                    assert(idx[k1] == old_idx[o1] && idx[k2] == old_idx[o2]);
                } else if k1 == p {
                    assert(idx[k2] == old_idx[k2 - 1]);
                } else {
                    assert(idx[k1] == old_idx[k1]);
                }
            }
            assert forall|k1: int, k2: int|
                0 <= k1 < k2 < idx.len() && (#[trigger] now[k1]).name_bytes() == (
                #[trigger] now[k2]).name_bytes() implies idx[k1] < idx[k2] by {
                if k1 != p && k2 != p {
                    let o1 = if k1 < p { k1 } else { k1 - 1 };
                    let o2 = if k2 < p { k2 } else { k2 - 1 };
                    assert(idx[k1] == old_idx[o1] && idx[k2] == old_idx[o2]);
                    assert(now[k1] == before[o1] && now[k2] == before[o2]);
                } else if k1 == p {
                    assert(now[k2] == before[k2 - 1]);
                    assert(now[k1] == x);
                } else {
                    assert(idx[k1] == old_idx[k1]);
                }
            }
            assert(rest@ =~= input.skip(now.len() as int));
            assert forall|i: int, j: int| 0 <= i < j < now.len() implies bytes_le(
                #[trigger] now[i].name_bytes(),
                #[trigger] now[j].name_bytes(),
            ) by {
                if j < p {
                    assert(now[i] == before[i] && now[j] == before[j]);
                } else if j == p {
                    assert(now[i] == before[i]);
                } else if i < p {
                    assert(now[i] == before[i] && now[j] == before[j - 1]);
                    lemma_bytes_le_transitive(
                        before[i].name_bytes(),
                        x.name_bytes(),
                        before[j - 1].name_bytes(),
                    );
                } else if i == p {
                    assert(now[j] == before[j - 1]);
                } else {
                    assert(now[i] == before[i - 1] && now[j] == before[j - 1]);
                }
            }
            assert(sorted@.to_multiset() == before.to_multiset().insert(x));
            assert(rest@.to_multiset() == rest_before.to_multiset().remove(x));
            assert(before == sorted_before);
            assert(sorted@.to_multiset().add(rest@.to_multiset()) =~= sorted_before.to_multiset().add(
                rest_before.to_multiset(),
            ));
        }
    }
    assert(rest@.to_multiset().len() == 0);
    assert(rest@.to_multiset() =~= Multiset::empty());
    assert(sorted@.to_multiset().add(Multiset::empty()) =~= sorted@.to_multiset());
    assert(stable_rearrangement(sorted@, entries@, idx));
    sorted
}

/// The last entry of a given name, as a map from names to entries built in
/// order keeps it.
pub fn find_last_named<'a, T: Named>(entries: &'a Vec<T>, name: &str) -> (found: Option<&'a T>)
    ensures
        match found {
            Some(e) => exists|i: int|
                0 <= i < entries@.len() && entries@[i] == *e && e.name_bytes() == encode_utf8(name@)
                    && forall|j: int|
                    i < j < entries@.len() ==> (#[trigger] entries@[j]).name_bytes() != encode_utf8(
                        name@,
                    ),
            None => forall|i: int|
                0 <= i < entries@.len() ==> (#[trigger] entries@[i]).name_bytes() != encode_utf8(
                    name@,
                ),
        },
{
    let target = name.as_bytes();
    let mut i: usize = entries.len();
    while i > 0
        invariant
            0 <= i <= entries@.len(),
            target@ == encode_utf8(name@),
            forall|j: int|
                i <= j < entries@.len() ==> (#[trigger] entries@[j]).name_bytes() != target@,
        decreases i,
    {
        i = i - 1;
        let entry = &entries[i];
        if bytes_equal(entry.name_str().as_bytes(), target) {
            return Some(entry);
        }
    }
    None
}

/// A backed-up sub-directory and the total size of the files below it.
pub struct SubDirTaskResult {
    pub sub_dir: SubDirEntry,
    pub size: u64,
}

/// The sum of a sequence of sizes.
pub open spec fn total_size(sizes: Seq<u64>) -> int
    decreases sizes.len(),
{
    if sizes.len() == 0 {
        0
    } else {
        total_size(sizes.drop_last()) + sizes.last()
    }
}

/// The total of no sizes is 0, and one more size adds exactly its value,
/// whatever sizes came before it (equal ones included).
pub proof fn lemma_total_size_push(sizes: Seq<u64>, size: u64)
    ensures
        total_size(Seq::<u64>::empty()) == 0,
        total_size(sizes.push(size)) == total_size(sizes) + size,
{
    assert(sizes.push(size).drop_last() =~= sizes);
}

/// The total of two runs of sizes one after the other is the sum of their
/// totals.
pub proof fn lemma_total_size_concat(first: Seq<u64>, second: Seq<u64>)
    ensures
        total_size(first + second) == total_size(first) + total_size(second),
    decreases second.len(),
{
    if second.len() == 0 {
        assert(first + second =~= first);
    } else {
        assert((first + second).drop_last() =~= first + second.drop_last());
        lemma_total_size_concat(first, second.drop_last());
    }
}

/// The sizes of backed-up sub-directories.
pub open spec fn sub_dir_sizes(results: Seq<SubDirTaskResult>) -> Seq<u64> {
    results.map_values(|r: SubDirTaskResult| r.size)
}

/// The sizes of files.
pub open spec fn file_sizes(files: Seq<FileEntry>) -> Seq<u64> {
    files.map_values(|f: FileEntry| f.size)
}

/// The entries of backed-up sub-directories.
pub open spec fn sub_dir_entries(results: Seq<SubDirTaskResult>) -> Seq<SubDirEntry> {
    results.map_values(|r: SubDirTaskResult| r.sub_dir)
}

proof fn lemma_total_size_prefix(sizes: Seq<u64>, k: int)
    requires
        0 <= k <= sizes.len(),
    ensures
        0 <= total_size(sizes.take(k)) <= total_size(sizes),
    decreases sizes.len(),
{
    if k < sizes.len() {
        assert(sizes.drop_last().take(k) =~= sizes.take(k));
        lemma_total_size_prefix(sizes.drop_last(), k);
    } else {
        assert(sizes.take(k) =~= sizes);
        if sizes.len() > 0 {
            lemma_total_size_prefix(sizes.drop_last(), k - 1);
        }
    }
}

/// Adds up sizes whose sum fits in a `u64`.
fn sum_sizes(sizes: &Vec<u64>) -> (total: u64)
    requires
        total_size(sizes@) <= u64::MAX,
    ensures
        total == total_size(sizes@),
{
    let mut total: u64 = 0;
    let mut i: usize = 0;
    while i < sizes.len()
        invariant
            0 <= i <= sizes@.len(),
            total_size(sizes@) <= u64::MAX,
            total == total_size(sizes@.take(i as int)),
        decreases sizes@.len() - i,
    {
        proof {
            assert(sizes@.take(i + 1).drop_last() =~= sizes@.take(i as int));
            lemma_total_size_prefix(sizes@, i + 1);
        }
        total = total + sizes[i];
        i = i + 1;
    }
    assert(sizes@.take(sizes@.len() as int) =~= sizes@);
    total
}

/// Puts a directory's entry together from its backed-up sub-directories and
/// files: both sorted by name, and the size being the sum of their sizes.
pub fn assemble_dir_entry(sub_dir_tasks: Vec<SubDirTaskResult>, file: Vec<FileEntry>) -> (entry: DirEntry)
    requires
        total_size(sub_dir_sizes(sub_dir_tasks@)) + total_size(file_sizes(file@)) <= u64::MAX,
    ensures
        entry.size == total_size(sub_dir_sizes(sub_dir_tasks@)) + total_size(file_sizes(file@)),
        sorted_by_name(entry.sub_dir@),
        entry.sub_dir@.to_multiset() == sub_dir_entries(sub_dir_tasks@).to_multiset(),
        sorted_by_name(entry.file@),
        entry.file@.to_multiset() == file@.to_multiset(),
        exists|idx: Seq<int>| stable_rearrangement(entry.sub_dir@, sub_dir_entries(sub_dir_tasks@), idx),
        exists|idx: Seq<int>| stable_rearrangement(entry.file@, file@, idx),
{
    let ghost tasks = sub_dir_tasks@;
    let mut sub_sizes: Vec<u64> = Vec::new();
    let mut i: usize = 0;
    while i < sub_dir_tasks.len()
        invariant
            0 <= i <= tasks.len(),
            sub_dir_tasks@ == tasks,
            sub_sizes@ == sub_dir_sizes(tasks).take(i as int),
        decreases tasks.len() - i,
    {
        sub_sizes.push(sub_dir_tasks[i].size);
        assert(sub_sizes@ =~= sub_dir_sizes(tasks).take(i + 1));
        i = i + 1;
    }
    assert(sub_sizes@ =~= sub_dir_sizes(tasks));
    let mut sizes_of_files: Vec<u64> = Vec::new();
    let mut i: usize = 0;
    while i < file.len()
        invariant
            0 <= i <= file@.len(),
            sizes_of_files@ == file_sizes(file@).take(i as int),
        decreases file@.len() - i,
    {
        sizes_of_files.push(file[i].size);
        assert(sizes_of_files@ =~= file_sizes(file@).take(i + 1));
        i = i + 1;
    }
    assert(sizes_of_files@ =~= file_sizes(file@));
    proof {
        lemma_total_size_prefix(sub_sizes@, 0);
        lemma_total_size_prefix(sizes_of_files@, 0);
    }
    let size = sum_sizes(&sub_sizes) + sum_sizes(&sizes_of_files);

    let mut rest = sub_dir_tasks;
    let mut sub_dirs: Vec<SubDirEntry> = Vec::new();
    while rest.len() > 0
        invariant
            sub_dirs@ + sub_dir_entries(rest@) == sub_dir_entries(tasks),
        decreases rest@.len(),
    {
        let ghost before = rest@;
        let task = rest.remove(0);
        assert(sub_dir_entries(before) =~= seq![task.sub_dir] + sub_dir_entries(rest@));
        sub_dirs.push(task.sub_dir);
        assert(sub_dirs@ + sub_dir_entries(rest@) =~= sub_dir_entries(tasks));
    }
    assert(sub_dir_entries(rest@) =~= Seq::<SubDirEntry>::empty());
    assert(sub_dirs@ =~= sub_dir_entries(tasks));
    let sub_dir = sort_by_name(sub_dirs);
    let file = sort_by_name(file);
    DirEntry { sub_dir, file, size }
}

/// The previous entry of a file whose modification time and size are
/// unchanged: such a file is not read again.
pub fn unchanged_file_entry(previous: Option<&FileEntry>, modified: i64, size: u64) -> (entry: Option<FileEntry>)
    ensures
        match previous {
            Some(p) => if p.modified == modified && p.size == size {
                entry matches Some(e) && e@ == p@
            } else {
                entry is None
            },
            None => entry is None,
        },
{
    match previous {
        Some(p) => {
            if p.modified == modified && p.size == size {
                Some(p.clone())
            } else {
                None
            }
        },
        None => None,
    }
}

/// The chunk hashes of the previous entry of a file whose content hash is
/// unchanged: its chunks are not stored again.
pub fn reusable_chunk_hashes(previous: Option<&FileEntry>, content_hash: &String) -> (chunks: Option<
    Vec<String>,
>)
    ensures
        match previous {
            Some(p) => if p.content_hash@ == content_hash@ {
                chunks matches Some(c) && c@.map_values(|h: String| h@) == p@.chunk_hash
            } else {
                chunks is None
            },
            None => chunks is None,
        },
{
    match previous {
        Some(p) => {
            if p.content_hash == *content_hash {
                Some(p.clone().chunk_hash)
            } else {
                None
            }
        },
        None => None,
    }
}

/// What the previous backup holds of a sub-directory.
pub enum PreviousSubDir<'a> {
    /// Nothing: no previous entry, or one without content.
    Absent,
    /// Its entry, stored inline.
    Inline(&'a DirEntry),
    /// The hash of the blob its entry is stored in.
    Stored(&'a String),
}

/// What the previous backup holds of a sub-directory, from its previous
/// entry.
pub fn previous_sub_dir<'a>(entry: Option<&'a SubDirEntry>) -> (previous: PreviousSubDir<'a>)
    ensures
        match entry {
            None => previous is Absent,
            Some(e) => match e.content {
                None => previous is Absent,
                Some(Content::Inline(d)) => previous matches PreviousSubDir::Inline(p) && *p == d,
                Some(Content::Hash(h)) => previous matches PreviousSubDir::Stored(p) && *p == h,
            },
        },
{
    match entry {
        None => PreviousSubDir::Absent,
        Some(e) => match &e.content {
            None => PreviousSubDir::Absent,
            Some(Content::Inline(d)) => PreviousSubDir::Inline(d),
            Some(Content::Hash(h)) => PreviousSubDir::Stored(h),
        },
    }
}

/// How many snapshot keys the backup command tries before it gives up.
pub const MAX_LOOP_ITERATIONS: u32 = 100;

/// How writing a snapshot under the next free key went.
pub enum SnapshotWrite {
    Written,
    /// Another backup took that key first.
    AlreadyExists,
    Failed,
}

/// What the backup command does after trying to write its snapshot.
pub enum SnapshotStep {
    /// The snapshot is stored: the backup is complete.
    Done,
    /// Look up the highest snapshot number again and try the next key.
    Retry,
    /// Report the write's failure.
    Fail,
    /// Too many keys were taken by other backups: report that.
    GiveUp,
}

/// Decides the backup's next step after its attempt number `attempt`
/// (counted from 0) to write the snapshot.
pub fn next_snapshot_step(attempt: u32, outcome: SnapshotWrite) -> (step: SnapshotStep)
    requires
        attempt < MAX_LOOP_ITERATIONS,
    ensures
        outcome is Written ==> step is Done,
        outcome is Failed ==> step is Fail,
        outcome is AlreadyExists ==> (if attempt + 1 < MAX_LOOP_ITERATIONS {
            step is Retry
        } else {
            step is GiveUp
        }),
{
    match outcome {
        SnapshotWrite::Written => SnapshotStep::Done,
        SnapshotWrite::Failed => SnapshotStep::Fail,
        SnapshotWrite::AlreadyExists => {
            if attempt + 1 < MAX_LOOP_ITERATIONS {
                SnapshotStep::Retry
            } else {
                SnapshotStep::GiveUp
            }
        },
    }
}

} // verus!
