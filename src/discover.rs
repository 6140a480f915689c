use vstd::prelude::*;
use vstd::multiset::Multiset;
use crate::naming::{is_cover_name, spec_is_cover_name, SKIP_THRESHOLD, TARGET_SIZE};
use crate::picture::{decode, decoded_dims};

verus! {

broadcast use {
    vstd::seq::axiom_seq_subrange_decreases,
    vstd::std_specs::vec::axiom_vec_index_decreases,
    vstd::seq_lib::group_to_multiset_ensures,
    vstd::seq_lib::lemma_multiset_commutative,
};

/// What was found at the path where a file's thumbnail would go.
#[derive(Debug)]
pub enum Existing {
    /// Nothing is there.
    Absent,
    /// Something is there, but it could not be read.
    Unreadable,
    /// A file with these contents.
    Present(Vec<u8>),
}

/// One entry of a directory, as a snapshot taken before discovery.
#[derive(Debug)]
pub enum Entry {
    /// A directory and its entries.
    Dir(Vec<Entry>),
    /// A regular file: a caller's identifier for it, its name, and what lies
    /// where its thumbnail would go.
    File { id: usize, name: String, output: Existing },
    /// Anything else, or an entry that could not be examined.
    Other,
}

/// A regular file of a snapshot: identifier, name, and its thumbnail's state.
pub type FileFacts = (usize, Seq<char>, Existing);

/// An existing thumbnail of this size is good enough to keep.
pub open spec fn is_adequate(width: u32, height: u32) -> bool {
    width <= SKIP_THRESHOLD && height <= SKIP_THRESHOLD
}

/// Whether a thumbnail whose dimensions read as `dims` (`None`: they could
/// not be read) has to be made again.
pub open spec fn spec_keeps(dims: Option<(u32, u32)>) -> bool {
    match dims {
        Some((w, h)) => !is_adequate(w, h),
        None => true,
    }
}

/// Whether a cover whose thumbnail path holds `output` needs converting.
pub open spec fn spec_needs_conversion(output: Existing) -> bool {
    match output {
        Existing::Present(bytes) => spec_keeps(decoded_dims(bytes@)),
        _ => true,
    }
}

/// A file that discovery reports.
pub open spec fn is_wanted(f: FileFacts) -> bool {
    spec_is_cover_name(f.1) && spec_needs_conversion(f.2)
}

/// The regular files of an entry, in depth-first order.
pub open spec fn files_of(e: Entry) -> Seq<FileFacts>
    decreases e,
{
    match e {
        Entry::Dir(entries) => files_of_all(entries@),
        Entry::File { id, name, output } => seq![(id, name@, output)],
        Entry::Other => seq![],
    }
}

/// The regular files of a list of entries, in depth-first order.
pub open spec fn files_of_all(es: Seq<Entry>) -> Seq<FileFacts>
    decreases es,
{
    if es.len() == 0 {
        seq![]
    } else {
        files_of_all(es.subrange(0, es.len() - 1)) + files_of(es[es.len() - 1])
    }
}

/// The identifiers of the wanted files among `fs`, in order.
pub open spec fn wanted_ids(fs: Seq<FileFacts>) -> Seq<usize>
    decreases fs.len(),
{
    if fs.len() == 0 {
        seq![]
    } else {
        let f = fs.last();
        wanted_ids(fs.drop_last()) + if is_wanted(f) {
            seq![f.0]
        } else {
            seq![]
        }
    }
}

proof fn lemma_wanted_ids_concat(a: Seq<FileFacts>, b: Seq<FileFacts>)
    ensures
        wanted_ids(a + b) == wanted_ids(a) + wanted_ids(b),
    decreases b.len(),
{
    if b.len() == 0 {
        assert(a + b =~= a);
        assert(wanted_ids(b) =~= seq![]);
        assert(wanted_ids(a) + wanted_ids(b) =~= wanted_ids(a));
    } else {
        lemma_wanted_ids_concat(a, b.drop_last());
        assert((a + b).drop_last() =~= a + b.drop_last());
        assert((a + b).last() == b.last());
        let tail = if is_wanted(b.last()) {
            seq![b.last().0]
        } else {
            seq![]
        };
        assert(wanted_ids(a) + wanted_ids(b.drop_last()) + tail =~= wanted_ids(a) + (
        wanted_ids(b.drop_last()) + tail));
    }
}

/// Whether a thumbnail whose dimensions read as `dims` has to be made again.
pub fn keeps_candidate(dims: Option<(u32, u32)>) -> (r: bool)
    ensures
        r == spec_keeps(dims),
{
    match dims {
        Some((w, h)) => !(w <= SKIP_THRESHOLD && h <= SKIP_THRESHOLD),
        None => true,
    }
}

/// Whether a cover whose thumbnail path holds `output` needs converting: yes
/// unless that thumbnail decodes to an image within the skip threshold.
pub fn needs_conversion(output: &Existing) -> (r: bool)
    ensures
        r == spec_needs_conversion(*output),
{
    match output {
        Existing::Present(bytes) => {
            let dims = match decode(bytes.as_slice()) {
                Ok(p) => Some((p.width(), p.height())),
                Err(_) => None,
            };
            keeps_candidate(dims)
        },
        _ => true,
    }
}

/// The identifiers of the files below `entries` that need a thumbnail.
pub fn find_covers(entries: &Vec<Entry>) -> (r: Vec<usize>)
    ensures
        r@ == wanted_ids(files_of_all(entries@)),
    decreases entries,
{
    let mut r: Vec<usize> = Vec::new();
    let mut i: usize = 0;
    while i < entries.len()
        invariant
            i <= entries.len(),
            r@ == wanted_ids(files_of_all(entries@.subrange(0, i as int))),
        decreases entries.len() - i,
    {
        assert(decreases_to!(entries => entries[i as int]));
        let mut found = process_entry(&entries[i]);
        proof {
            let s = entries@.subrange(0, i + 1);
            assert(s.subrange(0, s.len() - 1) =~= entries@.subrange(0, i as int));
            lemma_wanted_ids_concat(
                files_of_all(entries@.subrange(0, i as int)),
                files_of(entries@[i as int]),
            );
        }
        r.append(&mut found);
        i = i + 1;
    }
    assert(entries@.subrange(0, entries.len() as int) =~= entries@);
    r
}

/// The identifiers of the files at or below `entry` that need a thumbnail.
pub fn process_entry(entry: &Entry) -> (r: Vec<usize>)
    ensures
        r@ == wanted_ids(files_of(*entry)),
    decreases entry,
{
    match entry {
        Entry::Dir(entries) => find_covers(entries),
        Entry::File { id, name, output } => {
            let f: Ghost<FileFacts> = Ghost((*id, name@, *output));
            assert(wanted_ids(seq![f@]) =~= if is_wanted(f@) {
                seq![*id]
            } else {
                seq![]
            }) by {
                let one = seq![f@];
                assert(one.drop_last() =~= Seq::<FileFacts>::empty());
                assert(wanted_ids(one.drop_last()) == Seq::<usize>::empty());
                assert(one.last() == f@);
            }
            if is_cover_name(name.as_str()) && needs_conversion(output) {
                vec![*id]
            } else {
                Vec::new()
            }
        },
        Entry::Other => Vec::new(),
    }
}

/// No two files of a snapshot share an identifier.
pub open spec fn ids_distinct(fs: Seq<FileFacts>) -> bool {
    forall|i: int, j: int| 0 <= i < j < fs.len() ==> fs[i].0 != fs[j].0
}

/// Some wanted file among `fs` has identifier `id`.
pub open spec fn has_wanted(fs: Seq<FileFacts>, id: usize) -> bool {
    exists|k: int| 0 <= k < fs.len() && fs[k].0 == id && is_wanted(fs[k])
}

proof fn lemma_wanted_count(fs: Seq<FileFacts>, id: usize)
    requires
        ids_distinct(fs),
    ensures
        wanted_ids(fs).to_multiset().count(id) == if has_wanted(fs, id) {
            1nat
        } else {
            0nat
        },
    decreases fs.len(),
{
    if fs.len() == 0 {
        assert(wanted_ids(fs) =~= Seq::<usize>::empty());
    } else {
        let init = fs.drop_last();
        let f = fs.last();
        assert(ids_distinct(init));
        lemma_wanted_count(init, id);
        if is_wanted(f) {
            assert(wanted_ids(fs) =~= wanted_ids(init).push(f.0));
            if f.0 == id {
                assert(has_wanted(fs, id)) by {
                    assert(fs[fs.len() - 1] == f);
                }
                assert(!has_wanted(init, id)) by {
                    if has_wanted(init, id) {
                        let k = choose|k: int| 0 <= k < init.len() && init[k].0 == id && is_wanted(init[k]);
                        assert(fs[k] == init[k]);
                    }
                }
            } else {
                assert(has_wanted(fs, id) == has_wanted(init, id)) by {
                    if has_wanted(fs, id) {
                        let k = choose|k: int| 0 <= k < fs.len() && fs[k].0 == id && is_wanted(fs[k]);
                        assert(init[k] == fs[k]);
                    }
                    if has_wanted(init, id) {
                        let k = choose|k: int| 0 <= k < init.len() && init[k].0 == id && is_wanted(init[k]);
                        assert(fs[k] == init[k]);
                    }
                }
            }
        } else {
            assert(wanted_ids(fs) =~= wanted_ids(init));
            assert(has_wanted(fs, id) == has_wanted(init, id)) by {
                if has_wanted(fs, id) {
                    let k = choose|k: int| 0 <= k < fs.len() && fs[k].0 == id && is_wanted(fs[k]);
                    assert(k != fs.len() - 1);
                    assert(init[k] == fs[k]);
                }
                if has_wanted(init, id) {
                    let k = choose|k: int| 0 <= k < init.len() && init[k].0 == id && is_wanted(init[k]);
                    assert(fs[k] == init[k]);
                }
            }
        }
    }
}

proof fn lemma_none_wanted(fs: Seq<FileFacts>)
    requires
        forall|k: int| 0 <= k < fs.len() ==> !is_wanted(#[trigger] fs[k]),
    ensures
        wanted_ids(fs) == Seq::<usize>::empty(),
    decreases fs.len(),
{
    if fs.len() > 0 {
        let init = fs.drop_last();
        assert forall|k: int| 0 <= k < init.len() implies !is_wanted(#[trigger] init[k]) by {
            assert(init[k] == fs[k]);
        }
        lemma_none_wanted(init);
        assert(!is_wanted(fs[fs.len() - 1]));
        assert(wanted_ids(fs) =~= Seq::<usize>::empty());
    } else {
        assert(wanted_ids(fs) =~= Seq::<usize>::empty());
    }
}

/// However deeply the directories of a snapshot nest, discovery reports each
/// wanted file (a cover whose thumbnail has to be made) exactly once, and no
/// other identifier: every identifier occurs as often as wanted files carry
/// it.
pub proof fn lemma_each_cover_found_once(root: Vec<Entry>)
    requires
        ids_distinct(files_of_all(root@)),
    ensures
        forall|id: usize| #[trigger]
            wanted_ids(files_of_all(root@)).to_multiset().count(id) == if has_wanted(
                files_of_all(root@),
                id,
            ) {
                1nat
            } else {
                0nat
            },
{
    assert forall|id: usize| #[trigger]
        wanted_ids(files_of_all(root@)).to_multiset().count(id) == if has_wanted(
            files_of_all(root@),
            id,
        ) {
            1nat
        } else {
            0nat
        } by {
        lemma_wanted_count(files_of_all(root@), id);
    }
}

/// Nesting depth plays no part: an entry wrapped in a directory of its own
/// contributes the same files, and so the same candidates, as the entry alone.
pub proof fn lemma_nesting_keeps_candidates(e: Entry, wrapper: Vec<Entry>)
    requires
        wrapper@ == seq![e],
    ensures
        files_of(Entry::Dir(wrapper)) == files_of(e),
        wanted_ids(files_of(Entry::Dir(wrapper))) == wanted_ids(files_of(e)),
{
    let es = wrapper@;
    assert(es.subrange(0, 0) =~= Seq::<Entry>::empty());
    assert(files_of_all(es.subrange(0, 0)) == Seq::<FileFacts>::empty());
    assert(es[0] == e);
    assert(files_of_all(es) =~= files_of(e));
}

proof fn lemma_files_of_all_concat(a: Seq<Entry>, b: Seq<Entry>)
    ensures
        files_of_all(a + b) == files_of_all(a) + files_of_all(b),
    decreases b.len(),
{
    if b.len() == 0 {
        assert(a + b =~= a);
        assert(files_of_all(b) =~= Seq::<FileFacts>::empty());
        assert(files_of_all(a) + files_of_all(b) =~= files_of_all(a));
    } else {
        let bi = b.subrange(0, b.len() - 1);
        lemma_files_of_all_concat(a, bi);
        let ab = a + b;
        assert(ab.subrange(0, ab.len() - 1) =~= a + bi);
        assert(ab[ab.len() - 1] == b[b.len() - 1]);
        assert(files_of_all(a) + files_of_all(bi) + files_of(b[b.len() - 1]) =~= files_of_all(a) + (
        files_of_all(bi) + files_of(b[b.len() - 1])));
    }
}

/// The candidates below a list of entries, as a multiset.
pub open spec fn candidates_of_all(es: Seq<Entry>) -> Multiset<usize> {
    wanted_ids(files_of_all(es)).to_multiset()
}

proof fn lemma_candidates_concat(a: Seq<Entry>, b: Seq<Entry>)
    ensures
        candidates_of_all(a + b) == candidates_of_all(a).add(candidates_of_all(b)),
{
    lemma_files_of_all_concat(a, b);
    lemma_wanted_ids_concat(files_of_all(a), files_of_all(b));
}

/// The order in which a directory lists its entries plays no part: listings
/// that hold the same entries in any order yield the same candidates, each
/// as often.
pub proof fn lemma_listing_order_irrelevant(es1: Seq<Entry>, es2: Seq<Entry>)
    requires
        es1.to_multiset() == es2.to_multiset(),
    ensures
        candidates_of_all(es1) == candidates_of_all(es2),
    decreases es1.len(),
{
    if es1.len() == 0 {
        assert(es1.to_multiset().len() == 0);
        assert(es2.to_multiset().len() == es2.len());
        assert(es1 =~= es2);
    } else {
        let x = es1[es1.len() - 1];
        let init = es1.subrange(0, es1.len() - 1);
        assert(es1 =~= init.push(x));
        assert(es2.to_multiset().count(x) > 0);
        assert(es2.contains(x));
        let j = choose|j: int| 0 <= j < es2.len() && es2[j] == x;
        let pre = es2.subrange(0, j);
        let post = es2.subrange(j + 1, es2.len() as int);
        assert(es2.remove(j) =~= pre + post);
        assert(es2 =~= pre + seq![x] + post);
        assert(init.to_multiset() =~= (pre + post).to_multiset()) by {
            assert(init.push(x).to_multiset() =~= init.to_multiset().insert(x));
            assert(es2.remove(j).to_multiset() =~= es2.to_multiset().remove(x));
        }
        lemma_listing_order_irrelevant(init, pre + post);
        assert(init + seq![x] =~= es1);
        lemma_candidates_concat(init, seq![x]);
        lemma_candidates_concat(pre, post);
        lemma_candidates_concat(pre + seq![x], post);
        lemma_candidates_concat(pre, seq![x]);
        assert(candidates_of_all(es1) =~= candidates_of_all(es2));
    }
}

/// A snapshot with no cover files in it yields no candidates.
pub proof fn lemma_no_covers_found_nothing(root: Vec<Entry>)
    requires
        forall|k: int|
            0 <= k < files_of_all(root@).len() ==> !spec_is_cover_name(
                #[trigger] files_of_all(root@)[k].1,
            ),
    ensures
        wanted_ids(files_of_all(root@)) == Seq::<usize>::empty(),
{
    lemma_none_wanted(files_of_all(root@));
}

/// The path holds a thumbnail within the skip threshold.
pub open spec fn holds_adequate_thumbnail(output: Existing) -> bool {
    match output {
        Existing::Present(bytes) => match decoded_dims(bytes@) {
            Some((w, h)) => is_adequate(w, h),
            None => false,
        },
        _ => false,
    }
}

/// Once every cover of a snapshot has a thumbnail within the skip threshold
/// next to it, discovery finds nothing more to convert. The target size itself
/// lies within the threshold, so a thumbnail that `process_cover` returns,
/// which decodes to a `TARGET_SIZE` square, is such a thumbnail.
pub proof fn lemma_second_run_finds_nothing(root: Vec<Entry>)
    requires
        forall|k: int|
            0 <= k < files_of_all(root@).len() && spec_is_cover_name(
                #[trigger] files_of_all(root@)[k].1,
            ) ==> holds_adequate_thumbnail(files_of_all(root@)[k].2),
    ensures
        is_adequate(TARGET_SIZE, TARGET_SIZE),
        wanted_ids(files_of_all(root@)) == Seq::<usize>::empty(),
{
    let fs = files_of_all(root@);
    assert forall|k: int| 0 <= k < fs.len() implies !is_wanted(#[trigger] fs[k]) by {
        if spec_is_cover_name(fs[k].1) {
            assert(holds_adequate_thumbnail(fs[k].2));
        }
    }
    lemma_none_wanted(fs);
}

} // verus!
