//! Looking for landmarks by what their tags say.

use crate::data_handling::{FilterSubset, OSMData};
use crate::utils::collections::set_members;
use vstd::multiset::*;
use vstd::prelude::*;
use vstd::seq_lib::*;
use vstd::std_specs::hash::*;
use vstd::string::StringSliceAdditionalSpecFns;
use vstd::utf8::encode_utf8;

verus! {

broadcast use group_hash_axioms;

/// `needle` stands in `hay` at the position `at`.
pub open spec fn occurs_at(hay: Seq<u8>, needle: Seq<u8>, at: int) -> bool {
    0 <= at && at + needle.len() <= hay.len() && hay.subrange(at, at + needle.len()) == needle
}

/// `needle` stands somewhere in `hay`.
pub open spec fn occurs(hay: Seq<u8>, needle: Seq<u8>) -> bool {
    exists|at: int| occurs_at(hay, needle, at)
}

/// Tells whether the text `needle` stands somewhere in the text `hay`, by
/// their bytes.
pub fn contains_text(hay: &str, needle: &str) -> (r: bool)
    ensures
        r == occurs(hay.spec_bytes(), needle.spec_bytes()),
{
    let h = hay.as_bytes();
    let n = needle.as_bytes();
    if n.len() > h.len() {
        return false;
    }
    let last = h.len() - n.len();
    let mut at: usize = 0;
    while at <= last
        invariant
            at <= last + 1,
            h@.len() <= usize::MAX,
            n@.len() <= h@.len(),
            last == h@.len() - n@.len(),
            h@ == hay.spec_bytes(),
            n@ == needle.spec_bytes(),
            forall|k: int| 0 <= k < at ==> !occurs_at(h@, n@, k),
        decreases last + 1 - at,
    {
        let mut i: usize = 0;
        while i < n.len() && h[at + i] == n[i]
            invariant
                at <= last,
                h@.len() <= usize::MAX,
                n@.len() <= h@.len(),
                last == h@.len() - n@.len(),
                i <= n@.len(),
                forall|j: int| 0 <= j < i ==> h@[at + j] == n@[j],
            decreases n@.len() - i,
        {
            i += 1;
        }
        if i == n.len() {
            proof {
                assert(h@.subrange(at as int, at + n@.len()) =~= n@);
                assert(occurs_at(h@, n@, at as int));
            }
            return true;
        }
        proof {
            assert(h@.subrange(at as int, at + n@.len())[i as int] == h@[at + i]);
        }
        at += 1;
    }
    proof {
        assert forall|k: int| !occurs_at(h@, n@, k) by {}
    }
    false
}

/// One of the values of the tags holds the text.
pub open spec fn some_value_holds(pairs: Seq<(Seq<char>, Seq<char>)>, text: Seq<char>) -> bool {
    exists|i: int|
        0 <= i < pairs.len() && occurs(encode_utf8((#[trigger] pairs[i]).1), encode_utf8(text))
}

/// How many of the first `upto` values of the tags hold the text.
pub open spec fn values_holding(
    pairs: Seq<(Seq<char>, Seq<char>)>,
    text: Seq<char>,
    upto: int,
) -> nat
    decreases upto,
{
    if upto <= 0 {
        0
    } else if occurs(encode_utf8(pairs[upto - 1].1), encode_utf8(text)) {
        values_holding(pairs, text, upto - 1) + 1
    } else {
        values_holding(pairs, text, upto - 1)
    }
}

/// Some value holds the text exactly where the number of values that hold
/// it is not zero.
pub proof fn values_are_counted(pairs: Seq<(Seq<char>, Seq<char>)>, text: Seq<char>, upto: int)
    requires
        upto <= pairs.len(),
    ensures
        values_holding(pairs, text, upto) > 0 <==> exists|i: int|
            0 <= i < upto && occurs(encode_utf8((#[trigger] pairs[i]).1), encode_utf8(text)),
    decreases upto,
{
    if upto > 0 {
        values_are_counted(pairs, text, upto - 1);
        if values_holding(pairs, text, upto) > 0 {
            if occurs(encode_utf8(pairs[upto - 1].1), encode_utf8(text)) {
                assert(occurs(encode_utf8(pairs[upto - 1].1), encode_utf8(text)));
            } else {
                let i = choose|i: int|
                    0 <= i < upto - 1 && occurs(
                        encode_utf8((#[trigger] pairs[i]).1),
                        encode_utf8(text),
                    );
                assert(occurs(encode_utf8(pairs[i].1), encode_utf8(text)));
            }
        }
    }
}

/// One of the first `upto` entries of the list is the node.
pub open spec fn seen(members: Seq<u64>, upto: int, node: u64) -> bool {
    exists|j: int| 0 <= j < upto && j < members.len() && #[trigger] members[j] == node
}

impl OSMData {
    /// The node is a landmark of the graph: it is in the graph and in a
    /// subset of all landmarks.
    pub open spec fn is_landmark(&self, node: u64) -> bool {
        self.node_map@.contains_key(node) && exists|i: int|
            0 <= i < self.node_subsets@.len() && (#[trigger] self.node_subsets@[i]).filter_subset
                == FilterSubset::AllLandmarks && self.node_subsets@[i].node_subset@.contains(node)
    }

    /// The subset at `at` is one of all landmarks and holds the node, and
    /// the graph holds the node.
    pub open spec fn listed_in(&self, at: int, node: u64) -> bool {
        self.node_subsets@[at].filter_subset == FilterSubset::AllLandmarks
            && self.node_subsets@[at].node_subset@.contains(node) && self.node_map@.contains_key(
            node,
        )
    }

    /// How often a search for `text` comes upon the node among the first
    /// `upto` subsets: once for each of its tag values that holds the text, in
    /// each subset of all landmarks that holds the node.
    pub open spec fn landmark_hits(&self, node: u64, text: Seq<char>, upto: int) -> nat
        decreases upto,
    {
        if upto <= 0 {
            0
        } else if self.listed_in(upto - 1, node) {
            self.landmark_hits(node, text, upto - 1) + values_holding(
                self.node_map@[node].tags.pairs(),
                text,
                self.node_map@[node].tags.pairs().len() as int,
            )
        } else {
            self.landmark_hits(node, text, upto - 1)
        }
    }

    /// A search comes upon a node exactly where the node is a landmark
    /// with a tag value that holds the text.
    pub proof fn hits_are_landmarks(&self, node: u64, text: Seq<char>, upto: int)
        requires
            upto <= self.node_subsets@.len(),
        ensures
            self.landmark_hits(node, text, upto) > 0 <==> some_value_holds(
                self.node_map@[node].tags.pairs(),
                text,
            ) && exists|i: int| 0 <= i < upto && #[trigger] self.listed_in(i, node),
        decreases upto,
    {
        let pairs = self.node_map@[node].tags.pairs();
        values_are_counted(pairs, text, pairs.len() as int);
        if upto > 0 {
            self.hits_are_landmarks(node, text, upto - 1);
            if self.landmark_hits(node, text, upto) > 0 {
                if self.landmark_hits(node, text, upto - 1) > 0 {
                    let i = choose|i: int| 0 <= i < upto - 1 && #[trigger] self.listed_in(i, node);
                    assert(self.listed_in(i, node));
                } else {
                    assert(self.listed_in(upto - 1, node));
                }
            }
        }
    }

    /// Lists the landmarks with a tag whose value holds `search_string`: a
    /// node once for each such value, in each subset of all landmarks that
    /// holds it.
    pub fn search_landmarks(&self, search_string: &str) -> (r: Vec<u64>)
        ensures
            forall|n: u64|
                r@.to_multiset().count(n) == self.landmark_hits(
                    n,
                    search_string@,
                    self.node_subsets@.len() as int,
                ),
            forall|n: u64|
                r@.contains(n) <==> self.is_landmark(n) && some_value_holds(
                    self.node_map@[n].tags.pairs(),
                    search_string@,
                ),
    {
        broadcast use to_multiset_build;

        let ghost text = search_string@;
        let mut results: Vec<u64> = Vec::new();
        let mut s: usize = 0;
        proof {
            results@.to_multiset_ensures();
            assert(results@.to_multiset().len() == 0);
            assert(results@.to_multiset() =~= Multiset::<u64>::empty());
        }
        while s < self.node_subsets.len()
            invariant
                s <= self.node_subsets@.len(),
                text == search_string@,
                forall|n: u64|
                    results@.to_multiset().count(n) == self.landmark_hits(n, text, s as int),
            decreases self.node_subsets@.len() - s,
        {
            let subset = &self.node_subsets[s];
            if let FilterSubset::AllLandmarks = subset.filter_subset {
                let members = set_members(&subset.node_subset);
                let mut m: usize = 0;
                while m < members.len()
                    invariant
                        m <= members@.len(),
                        s < self.node_subsets@.len(),
                        text == search_string@,
                        subset == &self.node_subsets@[s as int],
                        subset.filter_subset == FilterSubset::AllLandmarks,
                        members@.no_duplicates(),
                        members@.to_set() == subset.node_subset@,
                        forall|n: u64|
                            results@.to_multiset().count(n) == self.landmark_hits(n, text, s as int)
                                + (if seen(members@, m as int, n) && self.node_map@.contains_key(n) {
                                values_holding(
                                    self.node_map@[n].tags.pairs(),
                                    text,
                                    self.node_map@[n].tags.pairs().len() as int,
                                )
                            } else {
                                0
                            }),
                    decreases members@.len() - m,
                {
                    let node_id = members[m];
                    proof {
                        if seen(members@, m as int, node_id) {
                            let j = choose|j: int|
                                0 <= j < m && j < members@.len() && #[trigger] members@[j] == node_id;
                            assert(members@[j] == members@[m as int]);
                        }
                        assert forall|n: u64| n != node_id implies (seen(members@, m + 1, n) <==> seen(
                            members@,
                            m as int,
                            n,
                        )) by {
                            if seen(members@, m + 1, n) {
                                let j = choose|j: int|
                                    0 <= j < m + 1 && j < members@.len() && #[trigger] members@[j] == n;
                                assert(members@[j] == n);
                            }
                            if seen(members@, m as int, n) {
                                let j = choose|j: int|
                                    0 <= j < m && j < members@.len() && #[trigger] members@[j] == n;
                                assert(members@[j] == n);
                            }
                        }
                        assert(seen(members@, m + 1, node_id)) by {
                            assert(members@[m as int] == node_id);
                        }
                    }
                    if let Some(node) = self.node_map.get(&node_id) {
                        let count = node.tags.len();
                        let ghost pairs = node.tags.pairs();
                        let ghost base = results@.to_multiset();
                        let mut t: usize = 0;
                        while t < count
                            invariant
                                t <= count,
                                text == search_string@,
                                pairs == node.tags.pairs(),
                                count == pairs.len(),
                                forall|n: u64|
                                    results@.to_multiset().count(n) == base.count(n) + (if n
                                        == node_id {
                                        values_holding(pairs, text, t as int)
                                    } else {
                                        0
                                    }),
                            decreases count - t,
                        {
                            let ghost before = results@;
                            let holds = contains_text(
                                node.tags.value_at(t).as_str(),
                                search_string,
                            );
                            if holds {
                                results.push(node_id);
                            }
                            proof {
                                before.to_multiset_ensures();
                                assert(holds == occurs(
                                    encode_utf8(pairs[t as int].1),
                                    encode_utf8(text),
                                ));
                                if holds {
                                    assert(results@ == before.push(node_id));
                                    assert(results@.to_multiset() =~= before.to_multiset().insert(
                                        node_id,
                                    ));
                                }
                                assert(values_holding(pairs, text, t + 1) == values_holding(
                                    pairs,
                                    text,
                                    t as int,
                                ) + (if holds {
                                    1nat
                                } else {
                                    0nat
                                }));
                            }
                            t += 1;
                        }
                    }
                    m += 1;
                }
                proof {
                    assert forall|n: u64|
                        results@.to_multiset().count(n) == self.landmark_hits(n, text, s + 1) by {
                        if subset.node_subset@.contains(n) {
                            assert(members@.to_set().contains(n));
                            let j = choose|j: int| 0 <= j < members@.len() && members@[j] == n;
                            assert(members@[j] == n);
                            assert(seen(members@, members@.len() as int, n));
                        } else if seen(members@, members@.len() as int, n) {
                            let j = choose|j: int|
                                0 <= j < members@.len() && j < members@.len()
                                    && #[trigger] members@[j] == n;
                            assert(members@.to_set().contains(members@[j]));
                        }
                    }
                }
            }
            s += 1;
        }
        proof {
            results@.to_multiset_ensures();
            assert forall|n: u64|
                results@.contains(n) <==> self.is_landmark(n) && some_value_holds(
                    self.node_map@[n].tags.pairs(),
                    text,
                ) by {
                self.hits_are_landmarks(n, text, self.node_subsets@.len() as int);
                if self.is_landmark(n) {
                    let i = choose|i: int|
                        0 <= i < self.node_subsets@.len() && (
                        #[trigger] self.node_subsets@[i]).filter_subset
                            == FilterSubset::AllLandmarks
                            && self.node_subsets@[i].node_subset@.contains(n);
                    assert(self.listed_in(i, n));
                }
                if exists|i: int|
                    0 <= i < self.node_subsets@.len() && #[trigger] self.listed_in(i, n) {
                    let i = choose|i: int|
                        0 <= i < self.node_subsets@.len() && #[trigger] self.listed_in(i, n);
                    assert(self.node_subsets@[i].node_subset@.contains(n));
                }
            }
        }
        results
    }
}

} // verus!
