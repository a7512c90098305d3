//! Merkle vector commitment over Groestl-256 digests.
//!
//! Leaves are 32-byte digests; an inner node is the Groestl-256 hash of the
//! concatenation of its two children.  The tree stores every level, so an
//! authentication path is read off directly, and a verified lemma shows that
//! every path the tree hands out walks back to its root.

use vstd::prelude::*;
use vstd::arithmetic::power2::pow2;
use crate::hashing::{groestl_of, groestl256};
use crate::error::Error;
use crate::util::pow2_usize;

verus! {

/// Digest compression: hash of the concatenation of the two children.
pub open spec fn compress_of(l: Seq<u8>, r: Seq<u8>) -> Seq<u8> {
    groestl_of(l + r)
}

/// The views of a vector of byte vectors.
pub open spec fn digs(s: Seq<Vec<u8>>) -> Seq<Seq<u8>> {
    Seq::new(s.len(), |i: int| s[i]@)
}

/// One level up: adjacent pairs compressed.
pub open spec fn up_level(s: Seq<Seq<u8>>) -> Seq<Seq<u8>> {
    Seq::new(s.len() / 2, |i: int| compress_of(s[2 * i], s[2 * i + 1]))
}

/// The Merkle root of a vector of leaves whose length is a power of two.
pub open spec fn merkle_root_spec(leaves: Seq<Seq<u8>>) -> Seq<u8>
    decreases leaves.len(),
{
    if leaves.len() <= 1 {
        if leaves.len() == 1 {
            leaves[0]
        } else {
            Seq::empty()
        }
    } else {
        merkle_root_spec(up_level(leaves))
    }
}

/// Walking an authentication path from a leaf: at each step the sibling sits
/// left or right according to the next index bit.
pub open spec fn walk_spec(leaf: Seq<u8>, path: Seq<Seq<u8>>, index: nat) -> Seq<u8>
    decreases path.len(),
{
    if path.len() == 0 {
        leaf
    } else {
        let next = if index % 2 == 0 {
            compress_of(leaf, path.first())
        } else {
            compress_of(path.first(), leaf)
        };
        walk_spec(next, path.drop_first(), index / 2)
    }
}

/// The sibling index of `t`.
pub open spec fn sibling(t: nat) -> nat {
    if t % 2 == 0 {
        t + 1
    } else {
        (t - 1) as nat
    }
}

/// The authentication path for a leaf: one sibling per level below the root.
pub open spec fn path_of(levels: Seq<Seq<Seq<u8>>>, index: nat) -> Seq<Seq<u8>> {
    Seq::new((levels.len() - 1) as nat, |j: int| levels[j][sibling(index / pow2(j as nat)) as int])
}

/// A binary Merkle tree that keeps all its levels.
pub struct MerkleTree {
    pub depth: usize,
    pub levels: Vec<Vec<Vec<u8>>>,
    pub root: Vec<u8>,
}

/// The views of the levels of a tree.
pub open spec fn lvls(s: Seq<Vec<Vec<u8>>>) -> Seq<Seq<Seq<u8>>> {
    Seq::new(s.len(), |i: int| digs(s[i]@))
}

/// A partial level stack: each level pairs up to the next, lengths halve
/// from 2^depth, and the bottom level holds the leaves.
pub open spec fn stack_wf(stack: Seq<Seq<Seq<u8>>>, depth: nat, leaves: Seq<Seq<u8>>) -> bool {
    &&& stack.len() >= 1
    &&& stack[0] == leaves
    &&& forall|t: int| 0 <= t < stack.len() ==> (#[trigger] stack[t]).len() == pow2(
        (depth - t) as nat,
    )
    &&& forall|t: int| 0 <= t < stack.len() - 1 ==> #[trigger] stack[t + 1] == up_level(stack[t])
}

/// Pushing the next level up keeps a stack well formed.
pub proof fn lemma_stack_push(stack: Seq<Seq<Seq<u8>>>, top: Seq<Seq<u8>>, depth: nat, leaves: Seq<Seq<u8>>)
    requires
        stack_wf(stack, depth, leaves),
        stack.len() <= depth,
        top == up_level(stack.last()),
        top.len() == pow2((depth - stack.len()) as nat),
    ensures
        stack_wf(stack.push(top), depth, leaves),
{
    let snew = stack.push(top);
    assert(snew[0] == leaves);
    assert forall|t: int| 0 <= t < snew.len() implies (#[trigger] snew[t]).len() == pow2(
        (depth - t) as nat,
    ) by {
        if t < stack.len() {
            assert(snew[t] == stack[t]);
        }
    }
    assert forall|t: int| 0 <= t < snew.len() - 1 implies #[trigger] snew[t + 1] == up_level(
        snew[t],
    ) by {
        if t + 1 < stack.len() {
            assert(snew[t + 1] == stack[t + 1]);
            assert(snew[t] == stack[t]);
        } else {
            assert(snew[t] == stack.last());
        }
    }
}

/// The single node of the top level of a full stack is the Merkle root of
/// its leaves.
pub proof fn lemma_stack_root(stack: Seq<Seq<Seq<u8>>>, depth: nat, leaves: Seq<Seq<u8>>)
    requires
        stack_wf(stack, depth, leaves),
        stack.len() == depth + 1,
    ensures
        stack[depth as int][0] == merkle_root_spec(leaves),
    decreases depth,
{
    vstd::arithmetic::power2::lemma2_to64();
    if depth == 0 {
    } else {
        let tail = stack.drop_first();
        assert(stack[0int + 1] == up_level(stack[0int]));
        assert forall|t: int| 0 <= t < tail.len() implies (#[trigger] tail[t]).len() == pow2(
            ((depth - 1) - t) as nat,
        ) by {
            assert(tail[t] == stack[t + 1]);
        }
        assert forall|t: int| 0 <= t < tail.len() - 1 implies #[trigger] tail[t + 1] == up_level(
            tail[t],
        ) by {
            assert(tail[t + 1] == stack[t + 2]);
            assert(tail[t] == stack[t + 1]);
            assert(stack[(t + 1) + 1] == up_level(stack[t + 1]));
        }
        assert(stack_wf(tail, (depth - 1) as nat, up_level(leaves)));
        lemma_stack_root(tail, (depth - 1) as nat, up_level(leaves));
        assert(tail[(depth - 1) as int] == stack[depth as int]);
        assert(leaves.len() == pow2(depth));
        assert(leaves.len() >= 2) by {
            vstd::arithmetic::power2::lemma_pow2_strictly_increases(0, depth);
        }
    }
}

impl MerkleTree {
    /// The level structure: each level pairs up to the one above, and the
    /// root is the single node of the last level.
    pub open spec fn wf(&self) -> bool {
        let ls = lvls(self.levels@);
        &&& ls.len() == self.depth + 1
        &&& forall|j: int| 0 <= j <= self.depth ==> (#[trigger] ls[j]).len() == pow2(
            (self.depth - j) as nat,
        )
        &&& forall|j: int| 0 <= j < self.depth ==> #[trigger] ls[j + 1] == up_level(ls[j])
        &&& self.root@ == ls[self.depth as int][0]
    }

    /// The leaf digests the tree was built over.
    pub open spec fn leaves(&self) -> Seq<Seq<u8>> {
        lvls(self.levels@)[0]
    }

    /// Build the tree over a power-of-two number of leaf digests.
    pub fn new(leafs: &Vec<Vec<u8>>) -> (r: Result<MerkleTree, Error>)
        ensures
            match r {
                Ok(t) => t.wf() && t.leaves() == digs(leafs@) && t.root@ == merkle_root_spec(
                    digs(leafs@),
                ) && (exists|d: nat| leafs@.len() == pow2(d)) && t.depth < 31 && t.leaves().len()
                    == leafs@.len(),
                Err(e) => e == Error::CodeLengthPowerOfTwoRequired && ((forall|d: nat|
                    leafs@.len() != pow2(d)) || leafs@.len() >= 0x8000_0000),
            },
    {
        let depth = match crate::util::log2_strict_usize(leafs.len()) {
            Some(d) => d,
            None => {
                return Err(Error::CodeLengthPowerOfTwoRequired);
            },
        };
        if depth >= 31 {
            proof {
                vstd::arithmetic::power2::lemma2_to64();
                if depth > 31 {
                    vstd::arithmetic::power2::lemma_pow2_strictly_increases(31, depth as nat);
                }
            }
            return Err(Error::CodeLengthPowerOfTwoRequired);
        }
        let mut levels: Vec<Vec<Vec<u8>>> = Vec::new();
        let mut cur: Vec<Vec<u8>> = Vec::new();
        let mut i: usize = 0;
        while i < leafs.len()
            invariant
                i <= leafs@.len(),
                cur@.len() == i,
                forall|k: int| 0 <= k < i ==> (#[trigger] cur@[k])@ == leafs@[k]@,
            decreases leafs@.len() - i,
        {
            let c: Vec<u8> = leafs[i].clone();
            proof {
                assert(c@ =~= leafs@[i as int]@);
            }
            cur.push(c);
            i = i + 1;
        }
        proof {
            assert(digs(cur@) =~= digs(leafs@));
        }
        let mut j: usize = 0;
        while j < depth
            invariant
                j <= depth,
                depth < 31,
                leafs@.len() == pow2(depth as nat),
                digs(cur@).len() == pow2((depth - j) as nat),
                lvls(levels@).len() == j,
                stack_wf(lvls(levels@).push(digs(cur@)), depth as nat, digs(leafs@)),
            decreases depth - j,
        {
            let ghost prestack = lvls(levels@).push(digs(cur@));
            let half: usize = cur.len() / 2;
            proof {
                vstd::arithmetic::power2::lemma_pow2_unfold((depth - j) as nat);
                vstd::arithmetic::power2::lemma_pow2_pos((depth - j - 1) as nat);
            }
            let mut next: Vec<Vec<u8>> = Vec::new();
            let mut t: usize = 0;
            while t < half
                invariant
                    t <= half,
                    2 * half == cur@.len(),
                    cur@.len() <= usize::MAX,
                    next@.len() == t,
                    forall|k: int|
                        0 <= k < t ==> (#[trigger] next@[k])@ == compress_of(
                            cur@[2 * k]@,
                            cur@[2 * k + 1]@,
                        ),
                decreases half - t,
            {
                let mut buf: Vec<u8> = cur[2 * t].clone();
                let mut right: Vec<u8> = cur[2 * t + 1].clone();
                proof {
                    assert(buf@ =~= cur@[2 * t as int]@);
                    assert(right@ =~= cur@[2 * t as int + 1]@);
                }
                buf.append(&mut right);
                let parent = groestl256(&buf);
                next.push(parent);
                t = t + 1;
            }
            proof {
                assert(digs(next@) =~= up_level(digs(cur@)));
            }
            levels.push(cur);
            cur = next;
            j = j + 1;
            proof {
                assert(lvls(levels@).push(digs(cur@)) =~= prestack.push(digs(cur@)));
                lemma_stack_push(prestack, digs(cur@), depth as nat, digs(leafs@));
            }
        }
        proof {
            vstd::arithmetic::power2::lemma2_to64();
            assert(cur@.len() == 1);
        }
        let root: Vec<u8> = cur[0].clone();
        proof {
            assert(root@ =~= cur@[0]@);
        }
        let ghost finalstack = lvls(levels@).push(digs(cur@));
        levels.push(cur);
        let tree = MerkleTree { depth, levels, root };
        proof {
            assert(lvls(tree.levels@) =~= finalstack);
            lemma_stack_root(finalstack, depth as nat, digs(leafs@));
            assert(tree.wf());
        }
        Ok(tree)
    }

    /// The authentication path for the leaf at `index`.
    pub fn merkle_path(&self, index: usize) -> (r: Vec<Vec<u8>>)
        requires
            self.wf(),
            index < self.leaves().len(),
            self.depth < 31,
        ensures
            digs(r@) == path_of(lvls(self.levels@), index as nat),
            r@.len() == self.depth,
    {
        let mut path: Vec<Vec<u8>> = Vec::new();
        let mut idx: usize = index;
        let mut j: usize = 0;
        proof {
            vstd::arithmetic::power2::lemma2_to64();
        }
        while j < self.depth
            invariant
                self.wf(),
                j <= self.depth,
                self.depth < 31,
                index < pow2(self.depth as nat),
                idx as nat == index as nat / pow2(j as nat),
                path@.len() == j,
                digs(path@) == path_of(lvls(self.levels@), index as nat).take(j as int),
            decreases self.depth - j,
        {
            let ls = &self.levels;
            proof {
                assert(lvls(self.levels@)[j as int].len() == pow2((self.depth - j) as nat));
                assert(idx < pow2((self.depth - j) as nat)) by {
                    vstd::arithmetic::power2::lemma_pow2_adds(
                        j as nat,
                        (self.depth - j) as nat,
                    );
                    vstd::arithmetic::div_mod::lemma_multiply_divide_lt(
                        index as int,
                        pow2(j as nat) as int,
                        pow2((self.depth - j) as nat) as int,
                    );
                }
            }
            let sib: usize = if idx % 2 == 0 {
                idx + 1
            } else {
                idx - 1
            };
            proof {
                assert(sib as nat == sibling(idx as nat));
                assert(sib < pow2((self.depth - j) as nat)) by {
                    if idx % 2 == 0 {
                        vstd::arithmetic::power2::lemma_pow2_unfold((self.depth - j) as nat);
                    }
                }
            }
            path.push(ls[j][sib].clone());
            proof {
                assert(digs(path@) =~= path_of(lvls(self.levels@), index as nat).take(
                    j as int + 1,
                ));
                vstd::arithmetic::power2::lemma_pow2_unfold((j + 1) as nat);
                vstd::arithmetic::power2::lemma_pow2_pos(j as nat);
                vstd::arithmetic::div_mod::lemma_div_denominator(
                    index as int,
                    pow2(j as nat) as int,
                    2,
                );
            }
            idx = idx / 2;
            j = j + 1;
        }
        proof {
            assert(digs(path@) =~= path_of(lvls(self.levels@), index as nat));
        }
        path
    }

    /// Walk an authentication path and compare against the root.
    pub fn verify_path(path: &Vec<Vec<u8>>, root: &Vec<u8>, leaf: &Vec<u8>, index: usize) -> (r:
        bool)
        ensures
            r == (walk_spec(leaf@, digs(path@), index as nat) == root@),
    {
        let mut cur: Vec<u8> = leaf.clone();
        let mut idx: usize = index;
        let mut j: usize = 0;
        proof {
            assert(cur@ =~= leaf@);
            assert(digs(path@).skip(0) =~= digs(path@));
        }
        while j < path.len()
            invariant
                j <= path@.len(),
                walk_spec(cur@, digs(path@).skip(j as int), idx as nat) == walk_spec(
                    leaf@,
                    digs(path@),
                    index as nat,
                ),
            decreases path@.len() - j,
        {
            let ghost pre = digs(path@).skip(j as int);
            proof {
                assert(pre.first() == path@[j as int]@);
                assert(pre.drop_first() =~= digs(path@).skip(j as int + 1));
            }
            let mut buf: Vec<u8>;
            if idx % 2 == 0 {
                buf = cur;
                let mut right = path[j].clone();
                buf.append(&mut right);
            } else {
                buf = path[j].clone();
                let mut right = cur;
                buf.append(&mut right);
            }
            cur = groestl256(&buf);
            idx = idx / 2;
            j = j + 1;
        }
        proof {
            assert(digs(path@).skip(path@.len() as int) =~= Seq::<Seq<u8>>::empty());
        }
        bytes_eq(&cur, root)
    }
}

/// The level `t` of a tree whose lower levels are `prefix` and whose current
/// top is `top`: a helper to speak of all levels during construction.
pub open spec fn level_at(prefix: Seq<Seq<Seq<u8>>>, top: Seq<Seq<u8>>, t: int) -> Seq<Seq<u8>> {
    if t < prefix.len() {
        prefix[t]
    } else {
        top
    }
}

/// In a well-formed level stack the root level holds the Merkle root of the
/// leaf level.
pub proof fn lemma_levels_root(ls: Seq<Seq<Seq<u8>>>, depth: nat)
    requires
        ls.len() == depth + 1,
        forall|j: int| 0 <= j <= depth ==> (#[trigger] ls[j]).len() == pow2((depth - j) as nat),
        forall|j: int| 0 <= j < depth ==> #[trigger] ls[j + 1] == up_level(ls[j]),
    ensures
        ls[depth as int][0] == merkle_root_spec(ls[0]),
    decreases depth,
{
    vstd::arithmetic::power2::lemma2_to64();
    if depth == 0 {
    } else {
        let tail = ls.drop_first();
        assert forall|j: int| 0 <= j <= depth - 1 implies (#[trigger] tail[j]).len() == pow2(
            (depth - 1 - j) as nat,
        ) by {
            assert(tail[j] == ls[j + 1]);
        }
        assert forall|j: int| 0 <= j < depth - 1 implies #[trigger] tail[j + 1] == up_level(
            tail[j],
        ) by {
            assert(tail[j + 1] == ls[j + 2]);
            assert(tail[j] == ls[j + 1]);
            assert(ls[(j + 1) + 1] == up_level(ls[j + 1]));
        }
        lemma_levels_root(tail, (depth - 1) as nat);
        assert(tail[(depth - 1) as int] == ls[depth as int]);
        assert(tail[0] == ls[1]);
        assert(ls[0].len() == pow2(depth));
        assert(ls[0].len() >= 2) by {
            vstd::arithmetic::power2::lemma_pow2_strictly_increases(0, depth);
        }
        assert(merkle_root_spec(ls[0]) == merkle_root_spec(up_level(ls[0])));
        assert(ls[0int + 1] == up_level(ls[0int]));
    }
}

/// Every path the tree hands out walks back to the root: completeness of the
/// Merkle opening.
pub proof fn lemma_path_walks_to_root(ls: Seq<Seq<Seq<u8>>>, depth: nat, index: nat)
    requires
        ls.len() == depth + 1,
        forall|j: int| 0 <= j <= depth ==> (#[trigger] ls[j]).len() == pow2((depth - j) as nat),
        forall|j: int| 0 <= j < depth ==> #[trigger] ls[j + 1] == up_level(ls[j]),
        index < ls[0].len(),
    ensures
        walk_spec(ls[0][index as int], path_of(ls, index), index) == ls[depth as int][0],
    decreases depth,
{
    vstd::arithmetic::power2::lemma2_to64();
    if depth == 0 {
        assert(path_of(ls, index).len() == 0);
    } else {
        let path = path_of(ls, index);
        assert(path.first() == ls[0][sibling(index / pow2(0)) as int]);
        assert(index / pow2(0) == index);
        let nxt = if index % 2 == 0 {
            compress_of(ls[0][index as int], path.first())
        } else {
            compress_of(path.first(), ls[0][index as int])
        };
        assert(ls[0int + 1] == up_level(ls[0int]));
        assert(index / 2 < ls[1].len()) by {
            vstd::arithmetic::power2::lemma_pow2_unfold(depth);
        }
        assert(nxt == ls[1][(index / 2) as int]) by {
            if index % 2 == 0 {
                assert(sibling(index) == index + 1);
                assert(2 * (index / 2) == index) by {
                    vstd::arithmetic::div_mod::lemma_fundamental_div_mod(index as int, 2);
                }
                assert(up_level(ls[0])[(index / 2) as int] == compress_of(
                    ls[0][2 * (index / 2) as int],
                    ls[0][2 * (index / 2) as int + 1],
                ));
            } else {
                assert(sibling(index) == index - 1);
                assert(2 * (index / 2) == index - 1) by {
                    vstd::arithmetic::div_mod::lemma_fundamental_div_mod(index as int, 2);
                }
                assert(up_level(ls[0])[(index / 2) as int] == compress_of(
                    ls[0][2 * (index / 2) as int],
                    ls[0][2 * (index / 2) as int + 1],
                ));
            }
        }
        let tail = ls.drop_first();
        assert forall|j: int| 0 <= j <= depth - 1 implies (#[trigger] tail[j]).len() == pow2(
            (depth - 1 - j) as nat,
        ) by {
            assert(tail[j] == ls[j + 1]);
        }
        assert forall|j: int| 0 <= j < depth - 1 implies #[trigger] tail[j + 1] == up_level(
            tail[j],
        ) by {
            assert(tail[j + 1] == ls[j + 2]);
            assert(tail[j] == ls[j + 1]);
            assert(ls[(j + 1) + 1] == up_level(ls[j + 1]));
        }
        lemma_path_walks_to_root(tail, (depth - 1) as nat, index / 2);
        assert(path.drop_first() =~= path_of(tail, index / 2)) by {
            assert forall|j: int| 0 <= j < depth - 1 implies path.drop_first()[j] == path_of(
                tail,
                index / 2,
            )[j] by {
                assert(path.drop_first()[j] == path[j + 1]);
                assert(path[j + 1] == ls[j + 1][sibling(index / pow2((j + 1) as nat)) as int]);
                assert(path_of(tail, index / 2)[j] == tail[j][sibling(
                    (index / 2) / pow2(j as nat),
                ) as int]);
                assert(tail[j] == ls[j + 1]);
                assert((index / 2) / pow2(j as nat) == index / pow2((j + 1) as nat)) by {
                    vstd::arithmetic::power2::lemma_pow2_unfold((j + 1) as nat);
                    vstd::arithmetic::power2::lemma_pow2_pos(j as nat);
                    vstd::arithmetic::div_mod::lemma_div_denominator(
                        index as int,
                        2,
                        pow2(j as nat) as int,
                    );
                }
            }
        }
        assert(tail[0][(index / 2) as int] == ls[1][(index / 2) as int]);
        assert(tail[(depth - 1) as int][0] == ls[depth as int][0]);
        assert(walk_spec(ls[0][index as int], path, index) == walk_spec(
            nxt,
            path.drop_first(),
            index / 2,
        ));
    }
}

/// Concatenation of the entries at position `j` across a batch of digest
/// streams, in stream order.
pub open spec fn concat_at(streams: Seq<Seq<Seq<u8>>>, j: int) -> Seq<u8>
    decreases streams.len(),
{
    if streams.len() == 0 {
        Seq::empty()
    } else {
        concat_at(streams.drop_last(), j) + streams.last()[j]
    }
}

/// Concatenation of a sequence of digests.
pub open spec fn concat_seq(s: Seq<Seq<u8>>) -> Seq<u8>
    decreases s.len(),
{
    if s.len() == 0 {
        Seq::empty()
    } else {
        concat_seq(s.drop_last()) + s.last()
    }
}

/// The batch leaves: leaf `j` hashes the concatenation of the `j`-th digest
/// of every stream.
pub open spec fn batch_leaves(streams: Seq<Seq<Seq<u8>>>, n: nat) -> Seq<Seq<u8>> {
    Seq::new(n, |j: int| groestl_of(concat_at(streams, j)))
}

/// Commit to a batch of digest streams: hash the streams columnwise into
/// leaves and build the Merkle tree over them.
pub fn commit_batch(streams: &Vec<Vec<Vec<u8>>>) -> (r: Result<(Vec<u8>, MerkleTree), Error>)
    requires
        streams@.len() >= 1,
        forall|p: int|
            0 <= p < streams@.len() ==> (#[trigger] streams@[p])@.len() == streams@[0]@.len(),
    ensures
        match r {
            Ok(t) => {
                &&& t.1.wf()
                &&& t.1.leaves() == batch_leaves(lvls(streams@), streams@[0]@.len())
                &&& t.0@ == merkle_root_spec(batch_leaves(lvls(streams@), streams@[0]@.len()))
                &&& t.1.root@ == t.0@
                &&& t.1.leaves().len() == streams@[0]@.len()
                &&& t.1.depth < 31
            },
            Err(e) => e == Error::CodeLengthPowerOfTwoRequired && ((forall|d: nat|
                streams@[0]@.len() != pow2(d)) || streams@[0]@.len() >= 0x8000_0000),
        },
{
    let n: usize = streams[0].len();
    let mut leaves: Vec<Vec<u8>> = Vec::new();
    let mut j: usize = 0;
    while j < n
        invariant
            j <= n,
            streams@.len() >= 1,
            n == streams@[0]@.len(),
            forall|p: int|
                0 <= p < streams@.len() ==> (#[trigger] streams@[p])@.len() == n,
            leaves@.len() == j,
            forall|k: int|
                0 <= k < j ==> (#[trigger] leaves@[k])@ == groestl_of(concat_at(lvls(streams@), k)),
        decreases n - j,
    {
        let mut buf: Vec<u8> = Vec::new();
        let mut p: usize = 0;
        while p < streams.len()
            invariant
                p <= streams@.len(),
                j < n,
                forall|q: int|
                    0 <= q < streams@.len() ==> (#[trigger] streams@[q])@.len() == n,
                buf@ == concat_at(lvls(streams@).take(p as int), j as int),
            decreases streams@.len() - p,
        {
            let ghost pre = buf@;
            let mut piece: Vec<u8> = streams[p][j].clone();
            proof {
                assert(piece@ =~= streams@[p as int]@[j as int]@);
            }
            buf.append(&mut piece);
            proof {
                let tk = lvls(streams@).take(p as int + 1);
                assert(tk.drop_last() =~= lvls(streams@).take(p as int));
                assert(tk.last() == lvls(streams@)[p as int]);
                assert(buf@ == concat_at(tk, j as int));
            }
            p = p + 1;
        }
        proof {
            assert(lvls(streams@).take(streams@.len() as int) =~= lvls(streams@));
        }
        let leaf = groestl256(&buf);
        leaves.push(leaf);
        j = j + 1;
    }
    proof {
        assert(digs(leaves@) =~= batch_leaves(lvls(streams@), n as nat));
    }
    let tree = match MerkleTree::new(&leaves) {
        Ok(t) => t,
        Err(e) => {
            return Err(e);
        },
    };
    let root = tree.root_digest();
    Ok((root, tree))
}

/// Verify a batched opening: rebuild the leaf from the per-stream digests at
/// the opened position, then walk the path to the commitment.
pub fn verify_batch_opening(
    commitment: &Vec<u8>,
    index: usize,
    path: &Vec<Vec<u8>>,
    leaf_digests: &Vec<Vec<u8>>,
) -> (r: bool)
    ensures
        r == (walk_spec(
            groestl_of(concat_seq(digs(leaf_digests@))),
            digs(path@),
            index as nat,
        ) == commitment@),
{
    let mut buf: Vec<u8> = Vec::new();
    let mut p: usize = 0;
    while p < leaf_digests.len()
        invariant
            p <= leaf_digests@.len(),
            buf@ == concat_seq(digs(leaf_digests@).take(p as int)),
        decreases leaf_digests@.len() - p,
    {
        let mut piece: Vec<u8> = leaf_digests[p].clone();
        proof {
            assert(piece@ =~= leaf_digests@[p as int]@);
        }
        buf.append(&mut piece);
        proof {
            let tk = digs(leaf_digests@).take(p as int + 1);
            assert(tk.drop_last() =~= digs(leaf_digests@).take(p as int));
            assert(tk.last() == digs(leaf_digests@)[p as int]);
        }
        p = p + 1;
    }
    proof {
        assert(digs(leaf_digests@).take(leaf_digests@.len() as int) =~= digs(leaf_digests@));
    }
    let leaf = groestl256(&buf);
    MerkleTree::verify_path(path, commitment, &leaf, index)
}

impl MerkleTree {
    /// A copy of the root digest.
    pub fn root_digest(&self) -> (r: Vec<u8>)
        ensures
            r@ == self.root@,
    {
        let r = self.root.clone();
        proof {
            assert(r@ =~= self.root@);
        }
        r
    }
}

/// Byte-vector equality.
pub fn bytes_eq(a: &Vec<u8>, b: &Vec<u8>) -> (r: bool)
    ensures
        r == (a@ == b@),
{
    if a.len() != b.len() {
        return false;
    }
    let mut i: usize = 0;
    while i < a.len()
        invariant
            i <= a@.len(),
            a@.len() == b@.len(),
            forall|j: int| 0 <= j < i ==> a@[j] == b@[j],
        decreases a@.len() - i,
    {
        if a[i] != b[i] {
            return false;
        }
        i = i + 1;
    }
    proof {
        assert(a@ =~= b@);
    }
    true
}

} // verus!
