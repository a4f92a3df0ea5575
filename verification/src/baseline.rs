//! The baseline of one job: a mapping from watched path to the hex digest of
//! its accepted content. Keys are unique; insertion order is kept so that the
//! persisted form is stable.

use vstd::prelude::*;
use crate::digest::digest_of;
use crate::assoc::{map_of_pairs, lemma_map_of_pairs_contains, lemma_map_of_pairs_at};

verus! {

/// The accepted state of one job's files: path to lowercase hex digest.
#[derive(Debug)]
pub struct Baseline {
    entries: Vec<(String, String)>,
}

impl View for Baseline {
    type V = Map<Seq<char>, Seq<char>>;

    open spec fn view(&self) -> Map<Seq<char>, Seq<char>> {
        map_of_pairs(self.entries_view())
    }
}

impl Baseline {
    /// The (path, digest) pairs in insertion order.
    pub closed spec fn entries_view(&self) -> Seq<(Seq<char>, Seq<char>)> {
        self.entries@.map_values(|p: (String, String)| (p.0@, p.1@))
    }

    /// The paths in insertion order.
    pub closed spec fn keys(&self) -> Seq<Seq<char>> {
        self.entries@.map_values(|p: (String, String)| p.0@)
    }

    /// No path occurs twice.
    pub closed spec fn wf(&self) -> bool {
        forall|i: int, j: int| 0 <= i < j < self.entries@.len()
            ==> self.entries@[i].0@ != self.entries@[j].0@
    }

    /// How the abstract sequences of a baseline relate: the key sequence is
    /// the path column of the entry sequence, and well-formedness is exactly
    /// pairwise distinctness of that column.
    pub proof fn lemma_shape(&self)
        ensures
            self.keys().len() == self.entries_view().len(),
            forall|i: int| 0 <= i < self.entries_view().len()
                ==> self.keys()[i] == self.entries_view()[i].0,
            self.wf() <==> (forall|i: int, j: int| 0 <= i < j < self.entries_view().len()
                ==> self.entries_view()[i].0 != self.entries_view()[j].0),
    {
        assert forall|i: int| 0 <= i < self.entries_view().len() implies #[trigger] self.entries_view()[i]
            == (self.entries@[i].0@, self.entries@[i].1@) by {}
        if self.wf() {
            assert forall|i: int, j: int| 0 <= i < j < self.entries_view().len() implies
                self.entries_view()[i].0 != self.entries_view()[j].0 by {
                assert(self.entries@[i].0@ != self.entries@[j].0@);
            }
        }
        if forall|i: int, j: int| 0 <= i < j < self.entries_view().len()
            ==> self.entries_view()[i].0 != self.entries_view()[j].0 {
            assert forall|i: int, j: int| 0 <= i < j < self.entries@.len() implies
                self.entries@[i].0@ != self.entries@[j].0@ by {
                assert(self.entries_view()[i].0 != self.entries_view()[j].0);
            }
        }
    }

    pub fn new() -> (b: Baseline)
        ensures
            b.wf(),
            b.entries_view() =~= Seq::<(Seq<char>, Seq<char>)>::empty(),
            b@ =~= Map::<Seq<char>, Seq<char>>::empty(),
    {
        Baseline { entries: Vec::new() }
    }

    pub fn len(&self) -> (n: usize)
        ensures
            n == self.entries_view().len(),
    {
        self.entries.len()
    }

    pub fn path_at(&self, i: usize) -> (p: &String)
        requires
            i < self.entries_view().len(),
        ensures
            p@ == self.entries_view()[i as int].0,
    {
        &self.entries[i].0
    }

    pub fn digest_at(&self, i: usize) -> (d: &String)
        requires
            i < self.entries_view().len(),
        ensures
            d@ == self.entries_view()[i as int].1,
    {
        &self.entries[i].1
    }

    fn index_of(&self, path: &String) -> (r: Option<usize>)
        ensures
            match r {
                Some(k) => k < self.entries_view().len() && self.entries_view()[k as int].0
                    == path@,
                None => forall|i: int| 0 <= i < self.entries_view().len()
                    ==> self.entries_view()[i].0 != path@,
            },
    {
        let mut i: usize = 0;
        while i < self.entries.len()
            invariant
                i <= self.entries@.len(),
                forall|j: int| 0 <= j < i ==> self.entries@[j].0@ != path@,
            decreases self.entries@.len() - i,
        {
            if self.entries[i].0.eq(path) {
                return Some(i);
            }
            i = i + 1;
        }
        None
    }

    /// The stored digest for a path, or `None` when the path is not part of
    /// this baseline.
    pub fn get<'a>(&'a self, path: &String) -> (r: Option<&'a String>)
        requires
            self.wf(),
        ensures
            match r {
                Some(d) => self@.contains_key(path@) && d@ == self@[path@],
                None => !self@.contains_key(path@),
            },
    {
        proof {
            lemma_map_of_pairs_contains(self.entries_view(), path@);
        }
        match self.index_of(path) {
            Some(k) => {
                proof {
                    lemma_map_of_pairs_at(self.entries_view(), k as int);
                }
                Some(&self.entries[k].1)
            },
            None => None,
        }
    }

    pub fn contains_path(&self, path: &String) -> (r: bool)
        requires
            self.wf(),
        ensures
            r == self@.contains_key(path@),
    {
        self.get(path).is_some()
    }

    /// Record `dgst` as the accepted digest for `path`: replace the entry in
    /// place when the path is known, append it otherwise.
    pub fn set(&mut self, path: &String, dgst: &String)
        requires
            old(self).wf(),
        ensures
            final(self).wf(),
            final(self)@ =~= old(self)@.insert(path@, dgst@),
            final(self).keys() =~= if old(self)@.contains_key(path@) {
                old(self).keys()
            } else {
                old(self).keys().push(path@)
            },
            old(self)@.contains_key(path@) ==> final(self).entries_view().len() == old(
                self,
            ).entries_view().len(),
            !old(self)@.contains_key(path@) ==> final(self).entries_view() =~= old(
                self,
            ).entries_view().push((path@, dgst@)),
    {
        proof {
            lemma_map_of_pairs_contains(self.entries_view(), path@);
        }
        let found = self.index_of(path);
        let ghost old_es = self.entries_view();
        proof {
            assert forall|q: int| 0 <= q < old_es.len() implies #[trigger] old_es[q] == (
                old(self).entries@[q].0@,
                old(self).entries@[q].1@,
            ) by {}
            assert forall|p: int, q: int| 0 <= p < q < old_es.len() implies old_es[p].0
                != old_es[q].0 by {
                assert(old(self).entries@[p].0@ != old(self).entries@[q].0@);
            }
        }
        match found {
            Some(k) => {
                let new_pair = (path.clone(), dgst.clone());
                let ghost np = new_pair;
                self.entries.remove(k);
                self.entries.insert(k, new_pair);
                proof {
                    assert(self.entries@ =~= old(self).entries@.update(k as int, np));
                    let es = self.entries_view();
                    assert forall|q: int| 0 <= q < es.len() implies #[trigger] es[q] == (
                        self.entries@[q].0@,
                        self.entries@[q].1@,
                    ) by {}
                    assert(old_es[k as int].0 == path@);
                    assert(es =~= old_es.update(k as int, (path@, dgst@)));
                    assert forall|q: int| 0 <= q < self.entries@.len() implies #[trigger] self.entries@[q].0@
                        == old(self).entries@[q].0@ by {}
                    assert(self.wf());
                    assert(self.keys() =~= old(self).keys());
                    assert forall|p: int, q: int| 0 <= p < q < es.len() implies es[p].0
                        != es[q].0 by {}
                    let m1 = map_of_pairs(es);
                    let m2 = old(self)@.insert(path@, dgst@);
                    assert forall|kk: Seq<char>| m1.contains_key(kk) == m2.contains_key(kk) by {
                        lemma_map_of_pairs_contains(es, kk);
                        lemma_map_of_pairs_contains(old_es, kk);
                        if m1.contains_key(kk) {
                            let i = choose|i: int| 0 <= i < es.len() && es[i].0 == kk;
                            assert(old_es[i].0 == kk);
                        }
                        if m2.contains_key(kk) {
                            if kk == path@ {
                                assert(es[k as int].0 == kk);
                            } else {
                                let i = choose|i: int|
                                    0 <= i < old_es.len() && old_es[i].0 == kk;
                                assert(es[i].0 == kk);
                            }
                        }
                    }
                    assert forall|kk: Seq<char>| m1.contains_key(kk) implies m1[kk] == m2[kk] by {
                        lemma_map_of_pairs_contains(es, kk);
                        let i = choose|i: int| 0 <= i < es.len() && es[i].0 == kk;
                        lemma_map_of_pairs_at(es, i);
                        if kk == path@ {
                            assert(es[k as int].0 == kk);
                            assert(i == k);
                            assert(m1[kk] == dgst@);
                        } else {
                            assert(i != k);
                            assert(old_es[i] == es[i]);
                            lemma_map_of_pairs_at(old_es, i);
                        }
                    }
                    assert(m1 =~= m2);
                }
            },
            None => {
                let new_pair = (path.clone(), dgst.clone());
                let ghost np = new_pair;
                self.entries.push(new_pair);
                proof {
                    assert(self.entries@ =~= old(self).entries@.push(np));
                    let es = self.entries_view();
                    assert forall|q: int| 0 <= q < es.len() implies #[trigger] es[q] == (
                        self.entries@[q].0@,
                        self.entries@[q].1@,
                    ) by {}
                    assert(es =~= old_es.push((path@, dgst@)));
                    assert forall|i: int, j: int| 0 <= i < j < self.entries@.len() implies
                        self.entries@[i].0@ != self.entries@[j].0@ by {
                        if j == self.entries@.len() - 1 {
                            assert(old_es[i].0 != path@);
                            assert(self.entries@[i].0@ == old_es[i].0);
                        } else {
                            assert(old_es[i].0 != old_es[j].0);
                        }
                    }
                    assert(self.wf());
                    assert(es.drop_last() =~= old_es);
                    assert(self.keys() =~= old(self).keys().push(path@));
                    assert(!old(self)@.contains_key(path@));
                }
            },
        }
    }
}

/// Why a baseline could not be produced: some watched path could not be read.
#[derive(Debug)]
pub struct ReadFailure {
    pub path: String,
}

/// Every watched path was handed readable content.
pub open spec fn all_readable(reads: Seq<(String, Option<Vec<u8>>)>) -> bool {
    forall|i: int| 0 <= i < reads.len() ==> reads[i].1 is Some
}

/// The mapping a successful generation produces: each path to the digest of
/// the content read for it, later occurrences of a repeated path winning.
pub open spec fn generated_map(reads: Seq<(String, Option<Vec<u8>>)>) -> Map<Seq<char>, Seq<char>>
    decreases reads.len(),
{
    if reads.len() == 0 {
        Map::empty()
    } else {
        generated_map(reads.drop_last()).insert(
            reads.last().0@,
            digest_of(reads.last().1->Some_0@),
        )
    }
}

/// The position of the first unreadable path.
pub open spec fn first_unreadable(reads: Seq<(String, Option<Vec<u8>>)>) -> int
    decreases reads.len(),
{
    if reads.len() == 0 {
        0
    } else if reads[0].1 is None {
        0
    } else {
        1 + first_unreadable(reads.drop_first())
    }
}

proof fn lemma_first_unreadable_here(reads: Seq<(String, Option<Vec<u8>>)>, i: int)
    requires
        0 <= i < reads.len(),
        reads[i].1 is None,
        forall|j: int| 0 <= j < i ==> reads[j].1 is Some,
    ensures
        first_unreadable(reads) == i,
    decreases i,
{
    if i > 0 {
        lemma_first_unreadable_here(reads.drop_first(), i - 1);
    }
}

/// Build the baseline for a list of watched paths from the content read for
/// each. A path whose read failed aborts generation: the first such path is
/// reported and nothing is returned for the job.
pub fn generate(reads: &Vec<(String, Option<Vec<u8>>)>) -> (r: Result<Baseline, ReadFailure>)
    ensures
        r is Ok <==> all_readable(reads@),
        r matches Ok(b) ==> b.wf() && b@ =~= generated_map(reads@),
        r matches Err(f) ==> f.path@ == reads@[first_unreadable(reads@)].0@,
{
    let mut b = Baseline::new();
    let mut i: usize = 0;
    while i < reads.len()
        invariant
            i <= reads@.len(),
            forall|j: int| 0 <= j < i ==> reads@[j].1 is Some,
            b.wf(),
            b@ =~= generated_map(reads@.take(i as int)),
        decreases reads@.len() - i,
    {
        match &reads[i].1 {
            Some(content) => {
                let dgst = crate::digest::calculate_checksum(content);
                b.set(&reads[i].0, &dgst);
                proof {
                    assert(reads@.take(i + 1 as int) =~= reads@.take(i as int).push(reads@[i as int]));
                    assert(reads@.take(i + 1 as int).drop_last() =~= reads@.take(i as int));
                }
            },
            None => {
                proof {
                    lemma_first_unreadable_here(reads@, i as int);
                }
                return Err(ReadFailure { path: reads[i].0.clone() });
            },
        }
        i = i + 1;
    }
    proof {
        assert(reads@.take(reads@.len() as int) =~= reads@);
    }
    Ok(b)
}

} // verus!
