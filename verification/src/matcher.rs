//! Cross-torrent file matching: group files by exact byte size and
//! resolve a file name to its counterpart in the other torrent.
use vstd::prelude::*;

use crate::error::MergeError;
use crate::snapshot::{FileEntry, Torrent};

verus! {

/// The views of a sequence of strings.
pub open spec fn string_views(ss: Seq<String>) -> Seq<Seq<char>> {
    Seq::new(ss.len(), |i: int| ss[i]@)
}

/// Some file of the list has byte size `s`.
pub open spec fn has_size(files: Seq<FileEntry>, s: u64) -> bool {
    exists|j: int| 0 <= j < files.len() && (#[trigger] files[j]).size == s
}

/// The names of the files of size `s`, in file-list order.
pub open spec fn names_of_size(files: Seq<FileEntry>, s: u64) -> Seq<Seq<char>>
    decreases files.len(),
{
    if files.len() == 0 {
        Seq::empty()
    } else {
        let rest = names_of_size(files.drop_last(), s);
        if files.last().size == s {
            rest.push(files.last().name@)
        } else {
            rest
        }
    }
}

/// The distinct sizes occurring in the list, in first-occurrence order.
pub open spec fn distinct_sizes(files: Seq<FileEntry>) -> Seq<u64>
    decreases files.len(),
{
    if files.len() == 0 {
        Seq::empty()
    } else {
        let rest = distinct_sizes(files.drop_last());
        if rest.contains(files.last().size) {
            rest
        } else {
            rest.push(files.last().size)
        }
    }
}

/// The subsequence of `sizes` whose elements also occur as a file size
/// in `b`.
pub open spec fn sizes_in_both(sizes: Seq<u64>, b: Seq<FileEntry>) -> Seq<u64>
    decreases sizes.len(),
{
    if sizes.len() == 0 {
        Seq::empty()
    } else {
        let rest = sizes_in_both(sizes.drop_last(), b);
        if has_size(b, sizes.last()) {
            rest.push(sizes.last())
        } else {
            rest
        }
    }
}

/// The sizes that appear in both file lists, in first-occurrence order
/// of `a`.
pub open spec fn common_sizes(a: Seq<FileEntry>, b: Seq<FileEntry>) -> Seq<u64> {
    sizes_in_both(distinct_sizes(a), b)
}

/// A size that occurs in a file list names at least one file.
pub proof fn lemma_names_of_size_nonempty(files: Seq<FileEntry>, s: u64)
    requires
        has_size(files, s),
    ensures
        names_of_size(files, s).len() > 0,
    decreases files.len(),
{
    if files.len() > 0 && files.last().size != s {
        let j = choose|j: int| 0 <= j < files.len() && (#[trigger] files[j]).size == s;
        assert(files.drop_last()[j] == files[j]);
        lemma_names_of_size_nonempty(files.drop_last(), s);
    }
}

/// Every size of the distinct-size list occurs in the file list.
pub proof fn lemma_distinct_sizes_occur(files: Seq<FileEntry>, k: int)
    requires
        0 <= k < distinct_sizes(files).len(),
    ensures
        has_size(files, distinct_sizes(files)[k]),
    decreases files.len(),
{
    if files.len() > 0 {
        let rest = distinct_sizes(files.drop_last());
        if k < rest.len() {
            lemma_distinct_sizes_occur(files.drop_last(), k);
            let j = choose|j: int|
                0 <= j < files.drop_last().len() && (#[trigger] files.drop_last()[j]).size
                    == rest[k];
            assert(files[j] == files.drop_last()[j]);
            assert(has_size(files, distinct_sizes(files)[k]));
        } else {
            assert(files.last() == files[files.len() - 1]);
            assert(has_size(files, files.last().size));
        }
    }
}

fn vec_contains_u64(v: &Vec<u64>, x: u64) -> (r: bool)
    ensures
        r == v@.contains(x),
{
    let mut i: usize = 0;
    while i < v.len()
        invariant
            0 <= i <= v@.len(),
            forall|k: int| 0 <= k < i ==> v@[k] != x,
        decreases v@.len() - i,
    {
        if v[i] == x {
            assert(v@[i as int] == x);
            return true;
        }
        i = i + 1;
    }
    false
}

fn files_have_size(files: &Vec<FileEntry>, s: u64) -> (r: bool)
    ensures
        r == has_size(files@, s),
{
    let mut i: usize = 0;
    while i < files.len()
        invariant
            0 <= i <= files@.len(),
            forall|k: int| 0 <= k < i ==> (#[trigger] files@[k]).size != s,
        decreases files@.len() - i,
    {
        if files[i].size == s {
            return true;
        }
        i = i + 1;
    }
    false
}

fn names_with_size(files: &Vec<FileEntry>, s: u64) -> (r: Vec<String>)
    ensures
        string_views(r@) == names_of_size(files@, s),
{
    let mut out: Vec<String> = Vec::new();
    let mut i: usize = 0;
    while i < files.len()
        invariant
            0 <= i <= files@.len(),
            string_views(out@) == names_of_size(files@.take(i as int), s),
        decreases files@.len() - i,
    {
        proof {
            assert(files@.take(i as int + 1).drop_last() =~= files@.take(i as int));
            assert(files@.take(i as int + 1).last() == files@[i as int]);
        }
        if files[i].size == s {
            out.push(files[i].name.clone());
            assert(string_views(out@) =~= names_of_size(files@.take(i as int + 1), s));
        } else {
            assert(string_views(out@) =~= names_of_size(files@.take(i as int + 1), s));
        }
        i = i + 1;
    }
    proof {
        assert(files@.take(files@.len() as int) =~= files@);
    }
    out
}

/// Groups the two snapshots' files into correspondences by exact byte
/// size: one entry per size occurring in both torrents, carrying all
/// names of that size on either side, in file-list order. Both name
/// lists of every entry are non-empty.
pub fn find_same_size_files(t1: &Torrent, t2: &Torrent) -> (r: Vec<(Vec<String>, Vec<String>)>)
    ensures
        r@.len() == common_sizes(t1.files@, t2.files@).len(),
        forall|k: int|
            0 <= k < r@.len() ==> string_views((#[trigger] r@[k]).0@) == names_of_size(
                t1.files@,
                common_sizes(t1.files@, t2.files@)[k],
            ) && string_views(r@[k].1@) == names_of_size(
                t2.files@,
                common_sizes(t1.files@, t2.files@)[k],
            ),
        forall|k: int|
            0 <= k < r@.len() ==> (#[trigger] r@[k]).0@.len() > 0 && r@[k].1@.len() > 0,
{
    let ghost a = t1.files@;
    let ghost b = t2.files@;
    let mut sizes: Vec<u64> = Vec::new();
    let mut i: usize = 0;
    while i < t1.files.len()
        invariant
            0 <= i <= a.len(),
            a == t1.files@,
            sizes@ == distinct_sizes(a.take(i as int)),
        decreases a.len() - i,
    {
        proof {
            assert(a.take(i as int + 1).drop_last() =~= a.take(i as int));
            assert(a.take(i as int + 1).last() == a[i as int]);
        }
        if !vec_contains_u64(&sizes, t1.files[i].size) {
            sizes.push(t1.files[i].size);
        }
        i = i + 1;
    }
    proof {
        assert(a.take(a.len() as int) =~= a);
    }
    let mut common_files: Vec<(Vec<String>, Vec<String>)> = Vec::new();
    let mut k: usize = 0;
    while k < sizes.len()
        invariant
            0 <= k <= sizes@.len(),
            a == t1.files@,
            b == t2.files@,
            sizes@ == distinct_sizes(a),
            common_files@.len() == sizes_in_both(sizes@.take(k as int), b).len(),
            forall|m: int|
                0 <= m < common_files@.len() ==> string_views((#[trigger] common_files@[m]).0@)
                    == names_of_size(a, sizes_in_both(sizes@.take(k as int), b)[m]) && string_views(
                    common_files@[m].1@,
                ) == names_of_size(b, sizes_in_both(sizes@.take(k as int), b)[m]),
            forall|m: int|
                0 <= m < common_files@.len() ==> (#[trigger] common_files@[m]).0@.len() > 0
                    && common_files@[m].1@.len() > 0,
        decreases sizes@.len() - k,
    {
        let s = sizes[k];
        proof {
            assert(sizes@.take(k as int + 1).drop_last() =~= sizes@.take(k as int));
            assert(sizes@.take(k as int + 1).last() == s);
        }
        if files_have_size(&t2.files, s) {
            let list_a = names_with_size(&t1.files, s);
            let list_b = names_with_size(&t2.files, s);
            proof {
                lemma_distinct_sizes_occur(a, k as int);
                lemma_names_of_size_nonempty(a, s);
                lemma_names_of_size_nonempty(b, s);
            }
            common_files.push((list_a, list_b));
        }
        k = k + 1;
    }
    proof {
        assert(sizes@.take(sizes@.len() as int) =~= sizes@);
    }
    common_files
}

/// Where `name` lands when carried across the size correspondences: the
/// first entry listing it on either side yields the first name of the
/// opposite side.
pub open spec fn convert_spec(
    pairs: Seq<(Vec<String>, Vec<String>)>,
    name: Seq<char>,
) -> Option<Seq<char>>
    decreases pairs.len(),
{
    if pairs.len() == 0 {
        None
    } else if string_views(pairs[0].0@).contains(name) {
        Some(pairs[0].1@[0]@)
    } else if string_views(pairs[0].1@).contains(name) {
        Some(pairs[0].0@[0]@)
    } else {
        convert_spec(pairs.drop_first(), name)
    }
}

fn contains_string(list: &Vec<String>, name: &String) -> (r: bool)
    ensures
        r == string_views(list@).contains(name@),
{
    let mut i: usize = 0;
    while i < list.len()
        invariant
            0 <= i <= list@.len(),
            forall|k: int| 0 <= k < i ==> (#[trigger] list@[k])@ != name@,
        decreases list@.len() - i,
    {
        if list[i] == *name {
            assert(string_views(list@)[i as int] == name@);
            return true;
        }
        i = i + 1;
    }
    assert forall|k: int| 0 <= k < string_views(list@).len() implies string_views(list@)[k]
        != name@ by {
        assert(string_views(list@)[k] == list@[k]@);
    }
    false
}

/// Resolves a file name to its counterpart in the matched pair that
/// lists it: the first name of the opposite group. Fails with
/// `FileNotFound` when no pair lists the name.
pub fn convert_filename(same_files: &Vec<(Vec<String>, Vec<String>)>, filename: &String) -> (r:
    Result<String, MergeError>)
    requires
        forall|k: int|
            0 <= k < same_files@.len() ==> (#[trigger] same_files@[k]).0@.len() > 0
                && same_files@[k].1@.len() > 0,
    ensures
        r is Ok <==> convert_spec(same_files@, filename@) is Some,
        r is Err ==> r->Err_0 == MergeError::FileNotFound,
        r is Ok ==> Some(r->Ok_0@) == convert_spec(same_files@, filename@),
{
    let ghost pairs = same_files@;
    proof {
        assert(pairs.skip(0) =~= pairs);
    }
    let mut i: usize = 0;
    while i < same_files.len()
        invariant
            0 <= i <= pairs.len(),
            pairs == same_files@,
            forall|k: int|
                0 <= k < pairs.len() ==> (#[trigger] pairs[k]).0@.len() > 0 && pairs[k].1@.len()
                    > 0,
            convert_spec(pairs, filename@) == convert_spec(pairs.skip(i as int), filename@),
        decreases pairs.len() - i,
    {
        proof {
            assert(pairs.skip(i as int)[0] == pairs[i as int]);
            assert(pairs.skip(i as int).drop_first() =~= pairs.skip(i as int + 1));
        }
        let pair = &same_files[i];
        if contains_string(&pair.0, filename) {
            return Ok(pair.1[0].clone());
        }
        if contains_string(&pair.1, filename) {
            return Ok(pair.0[0].clone());
        }
        i = i + 1;
    }
    proof {
        assert(pairs.skip(pairs.len() as int).len() == 0);
    }
    Err(MergeError::FileNotFound)
}

} // verus!
