//! Control-flow graph analysis: successors, reachability, reverse
//! post-order and dominance.
//!
//! A block `a` dominates a reachable block `b` when every path from the
//! entry block to `b` passes through `a`; equivalently, when `b` cannot be
//! reached from the entry without visiting `a`. Dominance is decided that
//! way, by a search that avoids `a`.

use vstd::prelude::*;

use crate::block::{term_operands, term_targets, Terminator};
use crate::error::VerifyError;
use crate::function::Function;
use crate::id::{BlockId, TypeId, ValueId};
use crate::instruction::inst_operands;
use crate::module::Module;
use crate::textbuf::concat_strs;
use crate::value::ValueKind;
use crate::verify::extends;
use crate::verify::typing::{is_void, vty};

verus! {

/// `s` holds the node `b`.
pub open spec fn seq_has(s: Seq<usize>, b: int) -> bool {
    exists|k: int| 0 <= k < s.len() && s[k] == b
}

/// `succ[a]` lists a successor `b` of node `a`.
pub open spec fn succ_edge(succ: Seq<Seq<usize>>, a: int, b: int) -> bool {
    0 <= a < succ.len() && seq_has(succ[a], b)
}

/// `p` is a path of the graph `edge` over nodes `0..n` that starts at the
/// entry node 0 and never visits `avoid`.
pub open spec fn is_path(edge: spec_fn(int, int) -> bool, n: int, p: Seq<int>, avoid: int) -> bool {
    &&& p.len() >= 1
    &&& p[0] == 0
    &&& forall|i: int| 0 <= i < p.len() ==> 0 <= #[trigger] p[i] < n && p[i] != avoid
    &&& forall|i: int| 0 <= i < p.len() - 1 ==> edge(#[trigger] p[i], p[i + 1])
}

/// Node `b` can be reached from the entry node without visiting `avoid`.
pub open spec fn reaches(edge: spec_fn(int, int) -> bool, n: int, b: int, avoid: int) -> bool {
    exists|p: Seq<int>| #[trigger] is_path(edge, n, p, avoid) && p.last() == b
}

/// Every successor list only names nodes `0..succ.len()`.
pub open spec fn succ_in_range(succ: Seq<Seq<usize>>) -> bool {
    forall|a: int, k: int| 0 <= a < succ.len() && 0 <= k < succ[a].len() ==> (#[trigger] succ[a][k] as int) < succ.len()
}

/// Control-flow edge from block `a` to block `b` of `f`: both exist and
/// `b` is a target of `a`'s terminator.
pub open spec fn cfg_edge(f: Function, a: int, b: int) -> bool {
    &&& 0 <= a < f.blocks@.len()
    &&& 0 <= b < f.blocks@.len()
    &&& f.blocks@[a].terminator matches Some(t) && exists|j: int| 0 <= j < term_targets(t).len() && #[trigger] term_targets(t)[j].0 == b
}

/// Block `b` of `f` is reachable from the entry block.
pub open spec fn block_reachable(f: Function, b: int) -> bool {
    reaches(|x: int, y: int| cfg_edge(f, x, y), f.blocks@.len() as int, b, f.blocks@.len() as int)
}

/// Block `a` dominates block `b` of `f`: `b` cannot be reached from the
/// entry block without passing through `a`.
pub open spec fn dominates(f: Function, a: int, b: int) -> bool {
    !reaches(|x: int, y: int| cfg_edge(f, x, y), f.blocks@.len() as int, b, a)
}

/// Number of `false` entries of `s`.
pub open spec fn count_false(s: Seq<bool>) -> nat
    decreases s.len(),
{
    if s.len() == 0 {
        0
    } else {
        count_false(s.drop_last()) + if s.last() { 0nat } else { 1nat }
    }
}

pub proof fn lemma_count_false_set(s: Seq<bool>, i: int)
    requires
        0 <= i < s.len(),
        !s[i],
    ensures
        count_false(s.update(i, true)) + 1 == count_false(s),
    decreases s.len(),
{
    let t = s.update(i, true);
    if i == s.len() - 1 {
        assert(t.drop_last() =~= s.drop_last());
    } else {
        lemma_count_false_set(s.drop_last(), i);
        assert(t.drop_last() =~= s.drop_last().update(i, true));
    }
}

/// Work left on a DFS stack: unexamined successors plus one per entry.
pub open spec fn stack_work(succ: Seq<Seq<usize>>, st: Seq<(usize, usize)>) -> int
    decreases st.len(),
{
    if st.len() == 0 {
        0
    } else {
        stack_work(succ, st.drop_last()) + (succ[st.last().0 as int].len() - st.last().1) + 1
    }
}

pub proof fn lemma_stack_work_nonneg(succ: Seq<Seq<usize>>, st: Seq<(usize, usize)>)
    requires
        forall|i: int| 0 <= i < st.len() ==> (#[trigger] st[i].1 as int) <= succ[st[i].0 as int].len(),
    ensures
        stack_work(succ, st) >= 0,
    decreases st.len(),
{
    if st.len() > 0 {
        lemma_stack_work_nonneg(succ, st.drop_last());
    }
}

/// A closed set of marked nodes that contains the entry contains every node
/// reachable without visiting `avoid`.
proof fn lemma_closed_contains_reachable(succ: Seq<Seq<usize>>, marked: Seq<bool>, avoid: int, p: Seq<int>)
    requires
        marked.len() == succ.len(),
        is_path(|x: int, y: int| succ_edge(succ, x, y), succ.len() as int, p, avoid),
        marked[0],
        forall|x: int, k: int| 0 <= x < succ.len() && marked[x] && 0 <= k < succ[x].len() ==> (#[trigger] succ[x][k] as int) == avoid
            || marked[succ[x][k] as int],
    ensures
        marked[p.last()],
    decreases p.len(),
{
    if p.len() > 1 {
        let q = p.drop_last();
        let edge = |x: int, y: int| succ_edge(succ, x, y);
        assert(is_path(edge, succ.len() as int, q, avoid)) by {
            assert forall|i: int| 0 <= i < q.len() - 1 implies edge(#[trigger] q[i], q[i + 1]) by {
                assert(q[i] == p[i] && q[i + 1] == p[i + 1]);
                assert(edge(p[i], p[i + 1]));
            }
            assert forall|i: int| 0 <= i < q.len() implies 0 <= #[trigger] q[i] < succ.len() && q[i] != avoid by {
                assert(q[i] == p[i]);
            }
        }
        lemma_closed_contains_reachable(succ, marked, avoid, q);
        let x = q.last();
        assert(x == p[p.len() - 2]);
        assert(edge(p[p.len() - 2], p[p.len() - 1]));
        assert(seq_has(succ[x], p.last()));
        let k = choose|k: int| 0 <= k < succ[x].len() && succ[x][k] == p.last();
        assert(p.last() != avoid);
    }
}

/// The `k`-th successor of `x` counted from the last one is `avoid` or
/// marked.
spec fn target_done(g: Seq<Seq<usize>>, marked: Seq<bool>, avoid: int, x: int, k: int) -> bool {
    let s = g[x][g[x].len() - 1 - k] as int;
    s == avoid || marked[s]
}

/// Result of a depth-first search of `succ` from node 0 that never enters
/// `avoid` (`avoid` out of range avoids nothing): the marked nodes, and
/// the nodes in post-order.
pub struct Search {
    /// `marked[b]` holds when `b` was reached.
    pub marked: Vec<bool>,
    /// The reached nodes in the order their search finished.
    pub post: Vec<usize>,
}

/// A state of the depth-first search over `g`: a mark per node, and a
/// stack of nodes each with how many of its successors were taken.
pub open spec fn dfs_state_ok(g: Seq<Seq<usize>>, marked: Seq<bool>, stack: Seq<(usize, usize)>) -> bool {
    &&& succ_in_range(g)
    &&& marked.len() == g.len()
    &&& forall|i: int| 0 <= i < g.len() ==> (#[trigger] g[i]).len() <= usize::MAX
    &&& forall|j: int| 0 <= j < stack.len() ==> (#[trigger] stack[j].0 as int) < g.len() && stack[j].1 <= g[stack[j].0 as int].len()
}

/// The post-order in which the depth-first search of `g` that never
/// enters `avoid` finishes its nodes, run from the given state. The node
/// on top of the stack takes its next successor, counting from its last
/// one; an unmarked successor is marked and searched next; a node with
/// no successor left is finished.
pub open spec fn dfs_post(g: Seq<Seq<usize>>, avoid: int, marked: Seq<bool>, stack: Seq<(usize, usize)>, post: Seq<usize>) -> Seq<usize>
    decreases count_false(marked), stack_work(g, stack),
    when dfs_state_ok(g, marked, stack)
{
    if stack.len() == 0 {
        post
    } else {
        let top = stack.last();
        let len = g[top.0 as int].len();
        proof {
            lemma_stack_work_nonneg(g, stack);
        }
        if top.1 < len {
            let s = g[top.0 as int][len - 1 - top.1];
            let advanced = stack.update(stack.len() - 1, (top.0, (top.1 + 1) as usize));
            proof {
                assert(advanced.drop_last() =~= stack.drop_last());
                assert(advanced.last() == (top.0, (top.1 + 1) as usize));
                assert(stack_work(g, advanced) == stack_work(g, stack.drop_last()) + (len - (top.1 + 1)) + 1);
                assert(stack_work(g, stack) == stack_work(g, stack.drop_last()) + (len - top.1) + 1);
                lemma_stack_work_nonneg(g, advanced);
            }
            if s as int != avoid && !marked[s as int] {
                proof {
                    lemma_count_false_set(marked, s as int);
                }
                dfs_post(g, avoid, marked.update(s as int, true), advanced.push((s, 0)), post)
            } else {
                dfs_post(g, avoid, marked, advanced, post)
            }
        } else {
            proof {
                lemma_stack_work_nonneg(g, stack.drop_last());
            }
            dfs_post(g, avoid, marked, stack.drop_last(), post.push(top.0))
        }
    }
}

/// The post-order of the depth-first search of `g` from node 0 that never
/// enters `avoid`.
pub open spec fn dfs_order(g: Seq<Seq<usize>>, avoid: int) -> Seq<usize> {
    if g.len() > 0 && avoid != 0 {
        dfs_post(g, avoid, Seq::new(g.len(), |i: int| i == 0), seq![(0usize, 0usize)], Seq::empty())
    } else {
        Seq::empty()
    }
}

/// Depth-first search of `succ` from node 0 that never enters `avoid`.
/// Successors are explored last to first, so that the reverse post-order
/// lists them in their natural order.
pub fn search(succ: &Vec<Vec<usize>>, avoid: usize) -> (r: Search)
    requires
        succ_in_range(succ@.map_values(|v: Vec<usize>| v@)),
    ensures
        r.marked@.len() == succ@.len(),
        forall|b: int| 0 <= b < succ@.len() ==> (#[trigger] r.marked@[b] <==> reaches(
            |x: int, y: int| succ_edge(succ@.map_values(|v: Vec<usize>| v@), x, y),
            succ@.len() as int,
            b,
            avoid as int,
        )),
        forall|i: int| 0 <= i < r.post@.len() ==> (#[trigger] r.post@[i] as int) < succ@.len() && r.marked@[r.post@[i] as int],
        forall|i: int, j: int| 0 <= i < j < r.post@.len() ==> r.post@[i] != r.post@[j],
        forall|b: int| 0 <= b < succ@.len() && r.marked@[b] ==> r.post@.contains(b as usize),
        succ@.len() > 0 && avoid != 0 ==> r.post@.len() > 0 && r.post@.last() == 0,
        r.post@ == dfs_order(succ@.map_values(|v: Vec<usize>| v@), avoid as int),
{
    let ghost g = succ@.map_values(|v: Vec<usize>| v@);
    let ghost edge = |x: int, y: int| succ_edge(g, x, y);
    let n = succ.len();
    let mut marked: Vec<bool> = Vec::new();
    let mut i: usize = 0;
    while i < n
        invariant
            i <= n,
            n == succ@.len(),
            marked@.len() == i,
            forall|j: int| 0 <= j < i ==> !marked@[j],
        decreases n - i,
    {
        marked.push(false);
        i = i + 1;
    }
    let mut post: Vec<usize> = Vec::new();
    let mut stack: Vec<(usize, usize)> = Vec::new();
    if n > 0 && avoid != 0 {
        marked.set(0, true);
        stack.push((0, 0));
        proof {
            let p = seq![0int];
            assert(is_path(edge, n as int, p, avoid as int));
            assert(stack@[0].0 == 0);
        }
    }
    proof {
        assert forall|b: int| 0 <= b < n && #[trigger] marked@[b] implies post@.contains(b as usize) || exists|j: int|
            0 <= j < stack@.len() && stack@[j].0 == b by {
            assert(b == 0);
            assert(stack@[0].0 == 0);
        }
        assert forall|i: int| 0 <= i < g.len() implies (#[trigger] g[i]).len() <= usize::MAX by {
            assert(g[i] == succ@[i]@);
            vstd::std_specs::vec::axiom_spec_len(&succ@[i]);
        }
        if n > 0 && avoid != 0 {
            assert(marked@ =~= Seq::new(g.len(), |i: int| i == 0));
            assert(stack@ =~= seq![(0usize, 0usize)]);
        }
        assert(post@ =~= Seq::<usize>::empty());
    }
    while stack.len() > 0
        invariant
            n == succ@.len(),
            g == succ@.map_values(|v: Vec<usize>| v@),
            edge == (|x: int, y: int| succ_edge(g, x, y)),
            succ_in_range(g),
            marked@.len() == n,
            forall|j: int| 0 <= j < stack@.len() ==> {
                &&& (#[trigger] stack@[j].0 as int) < n
                &&& marked@[stack@[j].0 as int]
                &&& stack@[j].1 <= g[stack@[j].0 as int].len()
            },
            forall|j: int| 0 <= j < post@.len() ==> (#[trigger] post@[j] as int) < n && marked@[post@[j] as int],
            forall|i: int, j: int| 0 <= i < j < post@.len() ==> post@[i] != post@[j],
            forall|i: int, j: int| 0 <= i < j < stack@.len() ==> stack@[i].0 != stack@[j].0,
            forall|i: int, j: int| 0 <= i < post@.len() && 0 <= j < stack@.len() ==> post@[i] != stack@[j].0,
            forall|b: int| 0 <= b < n && #[trigger] marked@[b] ==> post@.contains(b as usize) || exists|j: int|
                0 <= j < stack@.len() && stack@[j].0 == b,
            forall|b: int| 0 <= b < n && #[trigger] marked@[b] ==> reaches(edge, n as int, b, avoid as int),
            forall|b: int| 0 <= b < n && #[trigger] marked@[b] ==> b != avoid,
            n > 0 && avoid != 0 ==> marked@[0],
            n > 0 && avoid != 0 ==> (stack@.len() > 0 ==> stack@[0].0 == 0) && (stack@.len() == 0 ==> post@.len() > 0
                && post@.last() == 0),
            forall|j: int, k: int| 0 <= j < post@.len() && 0 <= k < g[post@[j] as int].len() ==> (#[trigger] g[post@[j] as int][k] as int)
                == avoid || marked@[g[post@[j] as int][k] as int],
            forall|j: int, k: int| 0 <= j < stack@.len() && 0 <= k < stack@[j].1 ==> #[trigger] target_done(
                g,
                marked@,
                avoid as int,
                stack@[j].0 as int,
                k,
            ),
            forall|i: int| 0 <= i < g.len() ==> (#[trigger] g[i]).len() <= usize::MAX,
            dfs_post(g, avoid as int, marked@, stack@, post@) == dfs_order(g, avoid as int),
        decreases count_false(marked@), stack_work(g, stack@),
    {
        let ghost m0 = marked@;
        let ghost s0 = stack@;
        let ghost p0 = post@;
        proof {
            assert(dfs_state_ok(g, m0, s0));
        }
        let top = stack.len() - 1;
        let (block, next) = stack[top];
        let len = succ[block].len();
        proof {
            assert(g[block as int] == succ@[block as int]@);
            lemma_stack_work_nonneg(g, stack@);
        }
        if next < len {
            let s = succ[block][len - 1 - next];
            proof {
                assert(g[block as int][len - 1 - next] == s);
                assert((s as int) < n);
            }
            let ghost old_stack = stack@;
            let ghost old_marked = marked@;
            stack.set(top, (block, next + 1));
            proof {
                assert(stack@.drop_last() =~= old_stack.drop_last());
            }
            let ghost mid_stack = stack@;
            if s != avoid && !marked[s] {
                proof {
                    let p = choose|p: Seq<int>| #[trigger] is_path(edge, n as int, p, avoid as int) && p.last() == block as int;
                    let q = p.push(s as int);
                    assert(seq_has(g[block as int], s as int));
                    assert(edge(block as int, s as int));
                    assert(is_path(edge, n as int, q, avoid as int)) by {
                        assert forall|i: int| 0 <= i < q.len() - 1 implies edge(#[trigger] q[i], q[i + 1]) by {
                            if i < p.len() - 1 {
                                assert(q[i] == p[i] && q[i + 1] == p[i + 1]);
                            } else {
                                assert(q[i] == block as int);
                            }
                        }
                        assert forall|i: int| 0 <= i < q.len() implies 0 <= #[trigger] q[i] < n && q[i] != avoid by {
                            if i < p.len() {
                                assert(q[i] == p[i]);
                            }
                        }
                    }
                    assert(q.last() == s as int);
                    lemma_count_false_set(marked@, s as int);
                }
                marked.set(s, true);
                stack.push((s, 0));
                proof {
                    assert forall|b: int| 0 <= b < n && #[trigger] marked@[b] implies post@.contains(b as usize) || exists|j: int|
                        0 <= j < stack@.len() && stack@[j].0 == b by {
                        if b == s as int {
                            assert(stack@[stack@.len() - 1].0 == b);
                        } else {
                            assert(old_marked[b]);
                            if !post@.contains(b as usize) {
                                let j = choose|j: int| 0 <= j < old_stack.len() && old_stack[j].0 == b;
                                assert(stack@[j].0 == b);
                            }
                        }
                    }
                    assert forall|b: int| 0 <= b < n && #[trigger] marked@[b] implies reaches(edge, n as int, b, avoid as int) by {
                        if b != s as int {
                            assert(old_marked[b]);
                        }
                    }
                    assert forall|j: int, k: int| 0 <= j < stack@.len() && 0 <= k < stack@[j].1 implies #[trigger] target_done(
                        g,
                        marked@,
                        avoid as int,
                        stack@[j].0 as int,
                        k,
                    ) by {
                        assert(j < old_stack.len());
                        if j < top {
                            assert(stack@[j] == old_stack[j]);
                            assert(target_done(g, old_marked, avoid as int, old_stack[j].0 as int, k));
                        } else if k < next {
                            assert(target_done(g, old_marked, avoid as int, old_stack[j].0 as int, k));
                        }
                    }
                }
            } else {
                proof {
                    assert(stack_work(g, stack@) < stack_work(g, old_stack));
                    assert forall|j: int, k: int| 0 <= j < stack@.len() && 0 <= k < stack@[j].1 implies #[trigger] target_done(
                        g,
                        marked@,
                        avoid as int,
                        stack@[j].0 as int,
                        k,
                    ) by {
                        if j < top {
                            assert(stack@[j] == old_stack[j]);
                        } else if k < next {
                            assert(target_done(g, old_marked, avoid as int, old_stack[j].0 as int, k));
                        }
                    }
                    assert forall|b: int| 0 <= b < n && #[trigger] marked@[b] implies post@.contains(b as usize) || exists|j: int|
                        0 <= j < stack@.len() && stack@[j].0 == b by {
                        if !post@.contains(b as usize) {
                            let j = choose|j: int| 0 <= j < old_stack.len() && old_stack[j].0 == b;
                            assert(stack@[j].0 == b);
                        }
                    }
                }
            }
        } else {
            let ghost old_stack = stack@;
            let ghost old_post = post@;
            post.push(block);
            stack.pop();
            proof {
                assert(stack@ =~= old_stack.drop_last());
                if stack@.len() > 0 {
                    assert(stack@[0] == old_stack[0]);
                }
                assert(next == len);
                assert(old_stack.last() == (block, next));
                assert(stack_work(g, stack@) < stack_work(g, old_stack));
                assert forall|j: int, k: int| 0 <= j < stack@.len() && 0 <= k < stack@[j].1 implies #[trigger] target_done(
                    g,
                    marked@,
                    avoid as int,
                    stack@[j].0 as int,
                    k,
                ) by {
                    assert(stack@[j] == old_stack[j]);
                }
                assert forall|b: int| 0 <= b < n && #[trigger] marked@[b] implies post@.contains(b as usize) || exists|j: int|
                    0 <= j < stack@.len() && stack@[j].0 == b by {
                    if b == block as int {
                        assert(post@[post@.len() - 1] == block);
                    } else if old_post.contains(b as usize) {
                        let i = choose|i: int| 0 <= i < old_post.len() && old_post[i] == b as usize;
                        assert(post@[i] == b as usize);
                    } else {
                        let j = choose|j: int| 0 <= j < old_stack.len() && old_stack[j].0 == b;
                        assert(j != old_stack.len() - 1);
                        assert(stack@[j].0 == b);
                    }
                }
                assert forall|j: int, k: int| 0 <= j < post@.len() && 0 <= k < g[post@[j] as int].len() implies (#[trigger] g[post@[j] as int][k] as int)
                    == avoid || marked@[g[post@[j] as int][k] as int] by {
                    if j == post@.len() - 1 {
                        let kk = len - 1 - k;
                        assert(0 <= kk < next);
                        assert(old_stack[top as int].1 == next);
                        assert(g[block as int].len() - 1 - kk == k);
                        assert(target_done(g, marked@, avoid as int, old_stack[top as int].0 as int, kk));
                    } else {
                        assert(post@[j] == old_post[j]);
                    }
                }
            }
        }
        proof {
            assert forall|i: int| 0 <= i < stack@.len() implies (#[trigger] stack@[i].1 as int) <= g[stack@[i].0 as int].len() by {
                assert(stack@[i].1 <= g[stack@[i].0 as int].len());
            }
            lemma_stack_work_nonneg(g, stack@);
            let t = s0.last();
            assert(t == (block, next));
            assert(g[block as int].len() == len);
            if next < len {
                let sx = g[block as int][len - 1 - next];
                let adv = s0.update(s0.len() - 1, (block, (next + 1) as usize));
                if sx as int != avoid && !m0[sx as int] {
                    assert(marked@ =~= m0.update(sx as int, true));
                    assert(stack@ =~= adv.push((sx, 0usize)));
                } else {
                    assert(marked@ == m0);
                    assert(stack@ =~= adv);
                }
                assert(post@ == p0);
            } else {
                assert(stack@ =~= s0.drop_last());
                assert(post@ =~= p0.push(block));
            }
            assert(dfs_post(g, avoid as int, m0, s0, p0) == dfs_post(g, avoid as int, marked@, stack@, post@));
        }
    }
    proof {
        assert forall|b: int| 0 <= b < n implies (#[trigger] marked@[b] <==> reaches(edge, n as int, b, avoid as int)) by {
            if reaches(edge, n as int, b, avoid as int) {
                let p = choose|p: Seq<int>| #[trigger] is_path(edge, n as int, p, avoid as int) && p.last() == b;
                assert(p[0] == 0 && p[0] != avoid);
                assert forall|x: int, k: int| 0 <= x < g.len() && marked@[x] && 0 <= k < g[x].len() implies (#[trigger] g[x][k] as int) == avoid
                    || marked@[g[x][k] as int] by {
                    assert(post@.contains(x as usize));
                    let j = choose|j: int| 0 <= j < post@.len() && post@[j] == x as usize;
                    assert(g[post@[j] as int][k] == g[x][k]);
                }
                lemma_closed_contains_reachable(g, marked@, avoid as int, p);
            }
        }
    }
    Search { marked, post }
}

/// The targets among `ts` that name one of the first `n` blocks, in order.
pub open spec fn targets_in(ts: Seq<BlockId>, n: int) -> Seq<usize>
    decreases ts.len(),
{
    if ts.len() == 0 {
        Seq::empty()
    } else {
        let rest = targets_in(ts.drop_last(), n);
        if (ts.last().0 as int) < n {
            rest.push(ts.last().0 as usize)
        } else {
            rest
        }
    }
}

/// The successor list of block `a` of `f`: its terminator's targets that
/// exist, in the order the terminator names them.
pub open spec fn block_succ(f: Function, a: int) -> Seq<usize> {
    match f.blocks@[a].terminator {
        Some(t) => targets_in(term_targets(t), f.blocks@.len() as int),
        None => Seq::empty(),
    }
}

/// The successor lists of all blocks of `f`.
pub open spec fn succ_graph(f: Function) -> Seq<Seq<usize>> {
    Seq::new(f.blocks@.len(), |a: int| block_succ(f, a))
}

/// The reachable blocks of `f` in reverse post-order of the depth-first
/// search from the entry block that follows each block's successors from
/// the last one named.
pub open spec fn rpo(f: Function) -> Seq<usize> {
    dfs_order(succ_graph(f), f.blocks@.len() as int).reverse()
}

/// Successor lists of the blocks of `f`, restricted to existing blocks.
pub fn successors(f: &Function) -> (r: Vec<Vec<usize>>)
    ensures
        r@.len() == f.blocks@.len(),
        r@.map_values(|v: Vec<usize>| v@) == succ_graph(*f),
        succ_in_range(r@.map_values(|v: Vec<usize>| v@)),
        forall|a: int, b: int| succ_edge(r@.map_values(|v: Vec<usize>| v@), a, b) <==> cfg_edge(*f, a, b),
{
    let n = f.blocks.len();
    let mut out: Vec<Vec<usize>> = Vec::new();
    let mut a: usize = 0;
    while a < n
        invariant
            n == f.blocks@.len(),
            a <= n,
            out@.len() == a,
            forall|x: int, k: int| 0 <= x < a && 0 <= k < out@[x]@.len() ==> (#[trigger] out@[x]@[k] as int) < n,
            forall|x: int, b: int| 0 <= x < a ==> (#[trigger] seq_has(out@[x]@, b) <==> cfg_edge(*f, x, b)),
            forall|x: int| 0 <= x < a ==> (#[trigger] out@[x])@ == block_succ(*f, x),
        decreases n - a,
    {
        let mut list: Vec<usize> = Vec::new();
        match &f.blocks[a].terminator {
            Some(t) => {
                let targets = t.visit_targets();
                let mut j: usize = 0;
                while j < targets.len()
                    invariant
                        n == f.blocks@.len(),
                        a < n,
                        f.blocks@[a as int].terminator == Some(*t),
                        targets@ == term_targets(*t),
                        j <= targets@.len(),
                        forall|k: int| 0 <= k < list@.len() ==> (#[trigger] list@[k] as int) < n,
                        forall|b: int| #[trigger] seq_has(list@, b) <==> (0 <= b < n && exists|i: int|
                            0 <= i < j && #[trigger] targets@[i].0 == b),
                        list@ == targets_in(targets@.subrange(0, j as int), n as int),
                    decreases targets@.len() - j,
                {
                    let ti = targets[j].index();
                    let ghost before = list@;
                    if ti < n {
                        list.push(ti);
                    }
                    proof {
                        assert forall|b: int| #[trigger] seq_has(list@, b) <==> (0 <= b < n && exists|i: int|
                            0 <= i < j + 1 && #[trigger] targets@[i].0 == b) by {
                            if seq_has(list@, b) {
                                let k = choose|k: int| 0 <= k < list@.len() && list@[k] == b;
                                if k < before.len() {
                                    assert(before[k] == b);
                                    assert(seq_has(before, b));
                                } else {
                                    assert(targets@[j as int].0 == b);
                                }
                            }
                            if 0 <= b < n && exists|i: int| 0 <= i < j + 1 && #[trigger] targets@[i].0 == b {
                                let i = choose|i: int| 0 <= i < j + 1 && #[trigger] targets@[i].0 == b;
                                if i < j {
                                    assert(seq_has(before, b));
                                    let k = choose|k: int| 0 <= k < before.len() && before[k] == b;
                                    assert(list@[k] == b);
                                } else {
                                    assert(list@[list@.len() - 1] == b);
                                }
                            }
                        }
                    }
                    proof {
                        let sub = targets@.subrange(0, j + 1);
                        assert(sub.drop_last() =~= targets@.subrange(0, j as int));
                        assert(sub.last() == targets@[j as int]);
                    }
                    j = j + 1;
                }
                proof {
                    assert(targets@.subrange(0, j as int) =~= targets@);
                }
            },
            None => {},
        }
        out.push(list);
        proof {
            assert forall|x: int, b: int| 0 <= x < a + 1 implies (#[trigger] seq_has(out@[x]@, b) <==> cfg_edge(*f, x, b)) by {
                if x == a {
                    assert(out@[x] == list);
                }
            }
        }
        a = a + 1;
    }
    proof {
        let g = out@.map_values(|v: Vec<usize>| v@);
        assert forall|x: int, k: int| 0 <= x < g.len() && 0 <= k < g[x].len() implies (#[trigger] g[x][k] as int) < g.len() by {
            assert(g[x] == out@[x]@);
        }
        assert forall|x: int, b: int| succ_edge(g, x, b) <==> cfg_edge(*f, x, b) by {
            if 0 <= x < g.len() {
                assert(g[x] == out@[x]@);
                assert(seq_has(out@[x]@, b) <==> cfg_edge(*f, x, b));
            }
        }
        assert(g =~= succ_graph(*f));
    }
    out
}

/// Control-flow facts of one function.
pub struct CfgInfo {
    /// Whether each block is reachable from the entry block.
    pub reachable: Vec<bool>,
    /// The reachable blocks in reverse post-order (the entry first).
    pub order: Vec<usize>,
    /// Successor lists, restricted to existing blocks.
    pub succ: Vec<Vec<usize>>,
}

impl CfgInfo {
    /// The facts describe `f`.
    pub open spec fn describes(&self, f: Function) -> bool {
        let n = f.blocks@.len();
        &&& self.reachable@.len() == n
        &&& self.succ@.len() == n
        &&& succ_in_range(self.succ@.map_values(|v: Vec<usize>| v@))
        &&& forall|a: int, b: int| succ_edge(self.succ@.map_values(|v: Vec<usize>| v@), a, b) <==> cfg_edge(f, a, b)
        &&& forall|b: int| 0 <= b < n ==> (#[trigger] self.reachable@[b] <==> block_reachable(f, b))
        &&& forall|i: int| 0 <= i < self.order@.len() ==> (#[trigger] self.order@[i] as int) < n && self.reachable@[self.order@[i] as int]
        &&& forall|i: int, j: int| 0 <= i < j < self.order@.len() ==> self.order@[i] != self.order@[j]
        &&& forall|b: int| 0 <= b < n && self.reachable@[b] ==> self.order@.contains(b as usize)
        &&& n > 0 ==> self.order@.len() > 0 && self.order@[0] == 0
        &&& self.succ@.map_values(|v: Vec<usize>| v@) == succ_graph(f)
        &&& self.order@ == rpo(f)
    }

    /// Computes reachability and the reverse post-order of `f`.
    pub fn compute(f: &Function) -> (r: CfgInfo)
        ensures
            r.describes(*f),
    {
        let succ = successors(f);
        let n = succ.len();
        let found = search(&succ, n);
        let mut order: Vec<usize> = Vec::new();
        let mut i: usize = found.post.len();
        while i > 0
            invariant
                i <= found.post@.len(),
                order@.len() == found.post@.len() - i,
                forall|k: int| 0 <= k < order@.len() ==> order@[k] == found.post@[found.post@.len() - 1 - k],
            decreases i,
        {
            i = i - 1;
            order.push(found.post[i]);
        }
        proof {
            let g = succ@.map_values(|v: Vec<usize>| v@);
            assert((|x: int, y: int| succ_edge(g, x, y)) =~= (|x: int, y: int| cfg_edge(*f, x, y)));
            let m = found.post@.len();
            assert forall|b: int| 0 <= b < n && found.marked@[b] implies order@.contains(b as usize) by {
                let k = choose|k: int| 0 <= k < m && found.post@[k] == b as usize;
                assert(order@[m - 1 - k] == b as usize);
            }
            assert forall|i: int, j: int| 0 <= i < j < order@.len() implies order@[i] != order@[j] by {
                assert(order@[i] == found.post@[m - 1 - i]);
                assert(order@[j] == found.post@[m - 1 - j]);
            }
            if n > 0 {
                assert(order@[0] == found.post@[m - 1]);
            }
            assert(order@ =~= found.post@.reverse());
        }
        CfgInfo { reachable: found.marked, order, succ }
    }

    /// Whether block `a` dominates block `b`: `b` cannot be reached from the
    /// entry block without passing through `a`.
    pub fn dominates(&self, Ghost(f): Ghost<Function>, a: usize, b: usize) -> (r: bool)
        requires
            self.describes(f),
            b < f.blocks@.len(),
        ensures
            r == dominates(f, a as int, b as int),
    {
        let found = search(&self.succ, a);
        proof {
            let g = self.succ@.map_values(|v: Vec<usize>| v@);
            assert((|x: int, y: int| succ_edge(g, x, y)) =~= (|x: int, y: int| cfg_edge(f, x, y)));
        }
        !found.marked[b]
    }
}

/// The arguments `args` of an edge to `target` match its parameters.
pub open spec fn edge_ok(f: Function, target: BlockId, args: Seq<ValueId>) -> bool {
    &&& (target.0 as int) < f.blocks@.len()
    &&& f.blocks@[target.0 as int].params@.len() == args.len()
    &&& forall|i: int| 0 <= i < args.len() ==> (vty(f, #[trigger] args[i]) is Some ==> vty(f, args[i]) == Some(
        f.blocks@[target.0 as int].params@[i].ty,
    ))
}

/// Terminator `t` of `f` is well formed: branch edges match their target's
/// parameters, a branch condition is `i1`, and a return agrees with the
/// result type.
pub open spec fn term_ok(m: Module, f: Function, t: Terminator) -> bool {
    match t {
        Terminator::Jump { target, args } => edge_ok(f, target, args@),
        Terminator::Branch { condition, then_block, then_args, else_block, else_args } => (vty(f, condition) is Some ==> vty(f, condition)
            == Some(TypeId::I1())) && edge_ok(f, then_block, then_args@) && edge_ok(f, else_block, else_args@),
        Terminator::Return { value } => match value {
            Some(v) => !is_void(m, f.result) && (vty(f, v) is Some ==> vty(f, v) == Some(f.result)),
            None => is_void(m, f.result),
        },
        Terminator::Unreachable => true,
    }
}

/// Block and position of the definition named by `k`: block parameters sit
/// at position 0 of their block, instruction `i` at position `i + 1`.
pub open spec fn def_position(k: ValueKind) -> Option<(int, int)> {
    match k {
        ValueKind::BlockParam { block, .. } => Some((block.0 as int, 0)),
        ValueKind::Inst { block, index } => Some((block.0 as int, index + 1)),
        _ => None,
    }
}

/// A use of `v` at position `pos` of block `ub` is dominated by its
/// definition. Uses in unreachable blocks, of unknown values and of
/// function parameters always are.
pub open spec fn use_dominated(f: Function, v: ValueId, ub: int, pos: int) -> bool {
    (v.0 as int) < f.values@.len() && block_reachable(f, ub) ==> match def_position(f.values@[v.0 as int].kind) {
        None => true,
        Some((db, dpos)) => 0 <= db < f.blocks@.len() && block_reachable(f, db) && if db == ub {
            dpos < pos
        } else {
            dominates(f, db, ub)
        },
    }
}

/// Every use in block `b` is dominated by its definition: instruction `i`
/// uses at position `i + 1`, the terminator after the last instruction.
pub open spec fn uses_dominated(f: Function, b: int) -> bool {
    let insts = f.blocks@[b].instructions@;
    &&& forall|i: int, k: int| 0 <= i < insts.len() && 0 <= k < inst_operands(insts[i].kind).len() ==> use_dominated(
        f,
        #[trigger] inst_operands(insts[i].kind)[k],
        b,
        i + 1,
    )
    &&& f.blocks@[b].terminator matches Some(t) ==> forall|k: int| 0 <= k < term_operands(t).len() ==> use_dominated(
        f,
        #[trigger] term_operands(t)[k],
        b,
        insts.len() as int + 1,
    )
}

/// Control flow of `f` is well formed: every block has a well formed
/// terminator, and every use is dominated by its definition.
pub open spec fn cfg_valid(m: Module, f: Function) -> bool {
    &&& forall|b: int| 0 <= b < f.blocks@.len() ==> ((#[trigger] f.blocks@[b]).terminator matches Some(t) && term_ok(m, f, t))
    &&& forall|b: int| 0 <= b < f.blocks@.len() ==> #[trigger] uses_dominated(f, b)
}

fn value_type(f: &Function, v: ValueId) -> (r: Option<TypeId>)
    ensures
        r == vty(*f, v),
{
    if v.index() < f.values.len() {
        Some(f.values[v.index()].ty)
    } else {
        None
    }
}

/// Checks the arguments of the edge from block `from` to `to`.
fn check_edge(m: &Module, f: &Function, name: &str, from: usize, to: BlockId, args: &Vec<ValueId>, errors: &mut Vec<VerifyError>)
    ensures
        extends(old(errors)@, final(errors)@),
        final(errors)@.len() == old(errors)@.len() <==> edge_ok(*f, to, args@),
{
    let ti = to.index();
    if ti >= f.blocks.len() {
        errors.push(VerifyError::UnknownBlock { function: name.to_owned(), block: to.0 });
        return;
    }
    let target = &f.blocks[ti];
    let from_id: u32 = #[verifier::truncate] (from as u32);
    if target.params.len() != args.len() {
        errors.push(VerifyError::BlockArgCountMismatch {
            function: name.to_owned(),
            from_block: from_id,
            to_block: to.0,
            expected: target.params.len(),
            found: args.len(),
        });
    }
    let ghost start = errors@;
    let count = if target.params.len() < args.len() { target.params.len() } else { args.len() };
    let mut i: usize = 0;
    while i < count
        invariant
            ti < f.blocks@.len(),
            *target == f.blocks@[ti as int],
            ti == to.0,
            count <= target.params@.len(),
            count <= args@.len(),
            count == target.params@.len() || count == args@.len(),
            i <= count,
            extends(start, errors@),
            errors@.len() == start.len() <==> forall|k: int| 0 <= k < i ==> (vty(*f, #[trigger] args@[k]) is Some ==> vty(*f, args@[k])
                == Some(target.params@[k].ty)),
        decreases count - i,
    {
        let ghost before = errors@;
        match value_type(f, args[i]) {
            Some(actual) => {
                let expected = target.params[i].ty;
                if actual.0 != expected.0 {
                    errors.push(VerifyError::BlockArgTypeMismatch {
                        function: name.to_owned(),
                        from_block: from_id,
                        to_block: to.0,
                        index: i,
                        expected: m.type_label(expected),
                        found: m.type_label(actual),
                    });
                }
            },
            None => {},
        }
        proof {
            if errors@.len() == start.len() {
                assert(before.len() == start.len());
            }
        }
        i = i + 1;
    }
}

/// Checks terminator `t` of block `from`.
fn check_terminator(m: &Module, f: &Function, name: &str, from: usize, t: &Terminator, errors: &mut Vec<VerifyError>)
    ensures
        extends(old(errors)@, final(errors)@),
        final(errors)@.len() == old(errors)@.len() <==> term_ok(*m, *f, *t),
{
    match t {
        Terminator::Jump { target, args } => check_edge(m, f, name, from, *target, args, errors),
        Terminator::Branch { condition, then_block, then_args, else_block, else_args } => {
            let ghost start = errors@;
            match value_type(f, *condition) {
                Some(c) => {
                    if c.0 != TypeId::I1().0 {
                        errors.push(VerifyError::ConditionNotI1 { function: name.to_owned(), found: m.type_label(c) });
                    }
                },
                None => {},
            }
            let ghost a = errors@;
            check_edge(m, f, name, from, *then_block, then_args, errors);
            let ghost b = errors@;
            check_edge(m, f, name, from, *else_block, else_args, errors);
        },
        Terminator::Return { value } => {
            let void = match m.types.get(f.result) {
                Some(d) => d.is_void(),
                None => false,
            };
            match value {
                Some(v) => {
                    if void {
                        let found = match value_type(f, *v) {
                            Some(t) => m.type_label(t),
                            None => concat_strs(&["<unknown>"]),
                        };
                        errors.push(VerifyError::ReturnMismatch {
                            function: name.to_owned(),
                            expected: concat_strs(&["void"]),
                            found: concat_strs(&["a value of type `", found.as_str(), "`"]),
                        });
                    } else {
                        match value_type(f, *v) {
                            Some(d) => {
                                if d.0 != f.result.0 {
                                    errors.push(VerifyError::ReturnMismatch {
                                        function: name.to_owned(),
                                        expected: m.type_label(f.result),
                                        found: m.type_label(d),
                                    });
                                }
                            },
                            None => {},
                        }
                    }
                },
                None => {
                    if !void {
                        errors.push(VerifyError::ReturnMismatch {
                            function: name.to_owned(),
                            expected: m.type_label(f.result),
                            found: concat_strs(&["void"]),
                        });
                    }
                },
            }
        },
        Terminator::Unreachable => {},
    }
}

/// `e` reports that the use of `v` in block `ub` of the function named
/// `fname` is not dominated by the definition of `v`, naming the block
/// that defines it.
pub open spec fn is_not_dominated(e: VerifyError, fname: Seq<char>, f: Function, v: ValueId, ub: int) -> bool {
    &&& e matches VerifyError::UseNotDominated { function, value, use_block, def_block } && function@ == fname && value
        == v.0 && use_block == ub as u32 && (def_position(f.values@[v.0 as int].kind) matches Some((db, _)) && def_block as int
        == db)
}

/// Among the errors from `from` on, one reports the use of `v` in block
/// `ub` as not dominated.
pub open spec fn reports_not_dominated(errs: Seq<VerifyError>, from: int, fname: Seq<char>, f: Function, v: ValueId, ub: int) -> bool {
    exists|j: int| 0 <= from <= j < errs.len() && is_not_dominated(#[trigger] errs[j], fname, f, v, ub)
}

/// Every use in block `b` of `f` that its definition does not dominate is
/// reported among the errors from `from` on.
pub open spec fn undominated_uses_reported(f: Function, errs: Seq<VerifyError>, from: int, fname: Seq<char>, b: int) -> bool {
    let insts = f.blocks@[b].instructions@;
    &&& forall|i: int, k: int|
        0 <= i < insts.len() && 0 <= k < inst_operands(insts[i].kind).len() && !use_dominated(
            f,
            #[trigger] inst_operands(insts[i].kind)[k],
            b,
            i + 1,
        ) ==> reports_not_dominated(errs, from, fname, f, inst_operands(insts[i].kind)[k], b)
    &&& f.blocks@[b].terminator matches Some(t) ==> forall|k: int|
        0 <= k < term_operands(t).len() && !use_dominated(f, #[trigger] term_operands(t)[k], b, insts.len() as int + 1)
            ==> reports_not_dominated(errs, from, fname, f, term_operands(t)[k], b)
}

/// Appending errors, or counting them from an earlier position, keeps a
/// report.
pub proof fn lemma_not_dominated_kept(
    a: Seq<VerifyError>,
    c: Seq<VerifyError>,
    from: int,
    wider: int,
    fname: Seq<char>,
    f: Function,
    v: ValueId,
    ub: int,
)
    requires
        extends(a, c),
        0 <= wider <= from,
        reports_not_dominated(a, from, fname, f, v, ub),
    ensures
        reports_not_dominated(c, wider, fname, f, v, ub),
{
    let j = choose|j: int| 0 <= from <= j < a.len() && is_not_dominated(#[trigger] a[j], fname, f, v, ub);
    assert(c[j] == a[j]);
}

/// Appending errors, or counting them from an earlier position, keeps
/// the reports on block `b`.
pub proof fn lemma_uses_kept(f: Function, a: Seq<VerifyError>, c: Seq<VerifyError>, from: int, wider: int, fname: Seq<char>, b: int)
    requires
        extends(a, c),
        0 <= wider <= from,
        0 <= b < f.blocks@.len(),
        undominated_uses_reported(f, a, from, fname, b),
    ensures
        undominated_uses_reported(f, c, wider, fname, b),
{
    let insts = f.blocks@[b].instructions@;
    assert forall|i: int, k: int|
        0 <= i < insts.len() && 0 <= k < inst_operands(insts[i].kind).len() && !use_dominated(
            f,
            #[trigger] inst_operands(insts[i].kind)[k],
            b,
            i + 1,
        ) implies reports_not_dominated(c, wider, fname, f, inst_operands(insts[i].kind)[k], b) by {
        lemma_not_dominated_kept(a, c, from, wider, fname, f, inst_operands(insts[i].kind)[k], b);
    }
    if f.blocks@[b].terminator is Some {
        let t = f.blocks@[b].terminator->0;
        assert forall|k: int|
            0 <= k < term_operands(t).len() && !use_dominated(f, #[trigger] term_operands(t)[k], b, insts.len() as int + 1)
            implies reports_not_dominated(c, wider, fname, f, term_operands(t)[k], b) by {
            lemma_not_dominated_kept(a, c, from, wider, fname, f, term_operands(t)[k], b);
        }
    }
}

/// Checks that the use of `v` at position `pos` of block `ub` is
/// dominated by its definition.
fn check_use(f: &Function, name: &str, info: &CfgInfo, v: ValueId, ub: usize, pos: u128, errors: &mut Vec<VerifyError>)
    requires
        info.describes(*f),
        ub < f.blocks@.len(),
    ensures
        extends(old(errors)@, final(errors)@),
        final(errors)@.len() == old(errors)@.len() <==> use_dominated(*f, v, ub as int, pos as int),
        !use_dominated(*f, v, ub as int, pos as int) ==> final(errors)@.len() == old(errors)@.len() + 1 && is_not_dominated(
            final(errors)@.last(),
            name@,
            *f,
            v,
            ub as int,
        ),
{
    if v.index() >= f.values.len() {
        return;
    }
    let (db, dpos): (BlockId, u128) = match f.values[v.index()].kind {
        ValueKind::BlockParam { block, .. } => (block, 0),
        ValueKind::Inst { block, index } => (block, index as u128 + 1),
        _ => {
            return;
        },
    };
    if !info.reachable[ub] {
        return;
    }
    let dbi = db.index();
    let ub_id: u32 = #[verifier::truncate] (ub as u32);
    if dbi >= f.blocks.len() || !info.reachable[dbi] {
        errors.push(VerifyError::UseNotDominated { function: name.to_owned(), value: v.0, use_block: ub_id, def_block: db.0 });
        return;
    }
    let ok = if dbi == ub {
        dpos < pos
    } else {
        info.dominates(Ghost(*f), dbi, ub)
    };
    if !ok {
        errors.push(VerifyError::UseNotDominated { function: name.to_owned(), value: v.0, use_block: ub_id, def_block: db.0 });
    }
}

/// The operands among the first `k` of `ops`, used at position `pos` of
/// block `b`, that their definitions do not dominate, in order.
pub open spec fn undominated_of(f: Function, ops: Seq<ValueId>, b: int, pos: int, k: int) -> Seq<ValueId>
    decreases k,
{
    if k <= 0 {
        Seq::empty()
    } else if use_dominated(f, ops[k - 1], b, pos) {
        undominated_of(f, ops, b, pos, k - 1)
    } else {
        undominated_of(f, ops, b, pos, k - 1).push(ops[k - 1])
    }
}

/// The undominated uses of the first `n` instructions of block `b`, in
/// order.
pub open spec fn undominated_in_insts(f: Function, b: int, n: int) -> Seq<ValueId>
    decreases n,
{
    if n <= 0 {
        Seq::empty()
    } else {
        let ops = inst_operands(f.blocks@[b].instructions@[n - 1].kind);
        undominated_in_insts(f, b, n - 1) + undominated_of(f, ops, b, n, ops.len() as int)
    }
}

/// The undominated uses of block `b`, in the order they are checked: the
/// instructions' operands, then the terminator's.
pub open spec fn undominated_in_block(f: Function, b: int) -> Seq<ValueId> {
    let n = f.blocks@[b].instructions@.len() as int;
    undominated_in_insts(f, b, n) + match f.blocks@[b].terminator {
        Some(t) => undominated_of(f, term_operands(t), b, n + 1, term_operands(t).len() as int),
        None => Seq::empty(),
    }
}

/// From position `from` on, `errs` holds exactly one report for each use
/// in `uses`, in order, all in block `b`.
pub open spec fn reports_exactly(errs: Seq<VerifyError>, from: int, fname: Seq<char>, f: Function, uses: Seq<ValueId>, b: int) -> bool {
    &&& errs.len() == from + uses.len()
    &&& forall|j: int| 0 <= j < uses.len() ==> is_not_dominated(#[trigger] errs[from + j], fname, f, uses[j], b)
}

/// Reports of two lists, one after the other, report their concatenation.
proof fn lemma_reports_concat(
    e1: Seq<VerifyError>,
    e2: Seq<VerifyError>,
    from: int,
    fname: Seq<char>,
    f: Function,
    u1: Seq<ValueId>,
    u2: Seq<ValueId>,
    b: int,
)
    requires
        extends(e1, e2),
        reports_exactly(e1, from, fname, f, u1, b),
        reports_exactly(e2, e1.len() as int, fname, f, u2, b),
        0 <= from,
    ensures
        reports_exactly(e2, from, fname, f, u1 + u2, b),
{
    assert forall|j: int| 0 <= j < (u1 + u2).len() implies is_not_dominated(#[trigger] e2[from + j], fname, f, (u1 + u2)[j], b) by {
        if j < u1.len() {
            assert(e2[from + j] == e1[from + j]);
        } else {
            assert(e2[e1.len() + (j - u1.len())] == e2[from + j]);
        }
    }
}

/// The undominated uses of the first `n` blocks of `f`, each with its
/// block, in the order they are checked.
pub open spec fn undominated_uses(f: Function, n: int) -> Seq<(ValueId, int)>
    decreases n,
{
    if n <= 0 {
        Seq::empty()
    } else {
        undominated_uses(f, n - 1) + undominated_in_block(f, n - 1).map_values(|v: ValueId| (v, n - 1))
    }
}

/// From position `from` on, `errs` holds exactly one report for each use
/// in `uses`, in order.
pub open spec fn reports_uses_exactly(errs: Seq<VerifyError>, from: int, fname: Seq<char>, f: Function, uses: Seq<(ValueId, int)>) -> bool {
    &&& errs.len() == from + uses.len()
    &&& forall|j: int| 0 <= j < uses.len() ==> is_not_dominated(#[trigger] errs[from + j], fname, f, uses[j].0, uses[j].1)
}

/// Appending the exact reports of one more block.
proof fn lemma_uses_concat(
    e1: Seq<VerifyError>,
    e2: Seq<VerifyError>,
    from: int,
    fname: Seq<char>,
    f: Function,
    u1: Seq<(ValueId, int)>,
    u2: Seq<ValueId>,
    b: int,
)
    requires
        extends(e1, e2),
        reports_uses_exactly(e1, from, fname, f, u1),
        reports_exactly(e2, e1.len() as int, fname, f, u2, b),
        0 <= from,
    ensures
        reports_uses_exactly(e2, from, fname, f, u1 + u2.map_values(|v: ValueId| (v, b))),
{
    let w = u1 + u2.map_values(|v: ValueId| (v, b));
    assert forall|j: int| 0 <= j < w.len() implies is_not_dominated(#[trigger] e2[from + j], fname, f, w[j].0, w[j].1) by {
        if j < u1.len() {
            assert(e2[from + j] == e1[from + j]);
        } else {
            assert(e2[e1.len() + (j - u1.len())] == e2[from + j]);
        }
    }
}

/// Checks that every use in block `b` is dominated by its definition.
fn check_block_uses(f: &Function, name: &str, info: &CfgInfo, b: usize, errors: &mut Vec<VerifyError>)
    requires
        info.describes(*f),
        b < f.blocks@.len(),
    ensures
        extends(old(errors)@, final(errors)@),
        final(errors)@.len() == old(errors)@.len() <==> uses_dominated(*f, b as int),
        undominated_uses_reported(*f, final(errors)@, old(errors)@.len() as int, name@, b as int),
        reports_exactly(final(errors)@, old(errors)@.len() as int, name@, *f, undominated_in_block(*f, b as int), b as int),
{
    let ghost start = errors@;
    let block = &f.blocks[b];
    let ghost insts = block.instructions@;
    let ni = block.instructions.len();
    let mut ii: usize = 0;
    while ii < ni
        invariant
            info.describes(*f),
            b < f.blocks@.len(),
            *block == f.blocks@[b as int],
            insts == block.instructions@,
            ni == insts.len(),
            ii <= ni,
            extends(start, errors@),
            errors@.len() == start.len() <==> forall|i: int, k: int| 0 <= i < ii && 0 <= k < inst_operands(insts[i].kind).len() ==> use_dominated(
                *f,
                #[trigger] inst_operands(insts[i].kind)[k],
                b as int,
                i + 1,
            ),
            forall|i: int, k: int|
                0 <= i < ii && 0 <= k < inst_operands(insts[i].kind).len() && !use_dominated(
                    *f,
                    #[trigger] inst_operands(insts[i].kind)[k],
                    b as int,
                    i + 1,
                ) ==> reports_not_dominated(errors@, start.len() as int, name@, *f, inst_operands(insts[i].kind)[k], b as int),
            reports_exactly(errors@, start.len() as int, name@, *f, undominated_in_insts(*f, b as int, ii as int), b as int),
        decreases ni - ii,
    {
        let operands = block.instructions[ii].kind.visit_values();
        let ghost mid = errors@;
        let mut k: usize = 0;
        while k < operands.len()
            invariant
                info.describes(*f),
                b < f.blocks@.len(),
                ii < ni,
                ni == insts.len(),
                operands@ == inst_operands(insts[ii as int].kind),
                k <= operands@.len(),
                extends(start, mid),
                extends(mid, errors@),
                errors@.len() == mid.len() <==> forall|j: int| 0 <= j < k ==> use_dominated(*f, #[trigger] operands@[j], b as int, ii + 1),
                start.len() <= mid.len(),
                forall|i: int, kk: int|
                    0 <= i < ii && 0 <= kk < inst_operands(insts[i].kind).len() && !use_dominated(
                        *f,
                        #[trigger] inst_operands(insts[i].kind)[kk],
                        b as int,
                        i + 1,
                    ) ==> reports_not_dominated(errors@, start.len() as int, name@, *f, inst_operands(insts[i].kind)[kk], b as int),
                forall|j: int| 0 <= j < k && !use_dominated(*f, #[trigger] operands@[j], b as int, ii + 1)
                    ==> reports_not_dominated(errors@, start.len() as int, name@, *f, operands@[j], b as int),
                reports_exactly(errors@, mid.len() as int, name@, *f, undominated_of(*f, operands@, b as int, ii + 1, k as int), b as int),
            decreases operands@.len() - k,
        {
            let ghost before = errors@;
            check_use(f, name, info, operands[k], b, ii as u128 + 1, errors);
            proof {
                let u = undominated_of(*f, operands@, b as int, ii + 1, k as int);
                if !use_dominated(*f, operands@[k as int], b as int, ii + 1) {
                    assert forall|j: int| 0 <= j < u.len() + 1 implies is_not_dominated(
                        #[trigger] errors@[mid.len() + j],
                        name@,
                        *f,
                        u.push(operands@[k as int])[j],
                        b as int,
                    ) by {
                        if j < u.len() {
                            assert(errors@[mid.len() + j] == before[mid.len() + j]);
                        }
                    }
                }
            }
            proof {
                if errors@.len() == mid.len() {
                    assert(before.len() == mid.len());
                }
                assert forall|i: int, kk: int|
                    0 <= i < ii && 0 <= kk < inst_operands(insts[i].kind).len() && !use_dominated(
                        *f,
                        #[trigger] inst_operands(insts[i].kind)[kk],
                        b as int,
                        i + 1,
                    ) implies reports_not_dominated(errors@, start.len() as int, name@, *f, inst_operands(insts[i].kind)[kk], b as int) by {
                    lemma_not_dominated_kept(before, errors@, start.len() as int, start.len() as int, name@, *f, inst_operands(insts[i].kind)[kk], b as int);
                }
                assert forall|j: int| 0 <= j < k + 1 && !use_dominated(*f, #[trigger] operands@[j], b as int, ii + 1)
                    implies reports_not_dominated(errors@, start.len() as int, name@, *f, operands@[j], b as int) by {
                    if j < k {
                        lemma_not_dominated_kept(before, errors@, start.len() as int, start.len() as int, name@, *f, operands@[j], b as int);
                    } else {
                        assert(is_not_dominated(errors@[errors@.len() - 1], name@, *f, operands@[j], b as int));
                    }
                }
            }
            k = k + 1;
        }
        proof {
            assert forall|i: int, k: int| 0 <= i < ii + 1 && 0 <= k < inst_operands(insts[i].kind).len() implies use_dominated(
                *f,
                #[trigger] inst_operands(insts[i].kind)[k],
                b as int,
                i + 1,
            ) <== errors@.len() == start.len() by {
                if i == ii {
                    assert(operands@[k] == inst_operands(insts[i].kind)[k]);
                }
            }
            if errors@.len() == start.len() {
                assert(mid.len() == start.len());
            }
            assert forall|i: int, kk: int|
                0 <= i < ii + 1 && 0 <= kk < inst_operands(insts[i].kind).len() && !use_dominated(
                    *f,
                    #[trigger] inst_operands(insts[i].kind)[kk],
                    b as int,
                    i + 1,
                ) implies reports_not_dominated(errors@, start.len() as int, name@, *f, inst_operands(insts[i].kind)[kk], b as int) by {
                if i == ii {
                    assert(operands@[kk] == inst_operands(insts[i].kind)[kk]);
                }
            }
        }
        proof {
            let ops = inst_operands(f.blocks@[b as int].instructions@[ii as int].kind);
            assert(operands@ == ops);
            lemma_reports_concat(
                mid,
                errors@,
                start.len() as int,
                name@,
                *f,
                undominated_in_insts(*f, b as int, ii as int),
                undominated_of(*f, ops, b as int, ii + 1, ops.len() as int),
                b as int,
            );
        }
        ii = ii + 1;
    }
    let ghost mid2 = errors@;
    match &block.terminator {
        Some(t) => {
            let operands = t.visit_values();
            let pos = ni as u128 + 1;
            let mut k: usize = 0;
            while k < operands.len()
                invariant
                    info.describes(*f),
                    b < f.blocks@.len(),
                    operands@ == term_operands(*t),
                    pos == ni + 1,
                    k <= operands@.len(),
                    extends(start, mid2),
                    extends(mid2, errors@),
                    errors@.len() == mid2.len() <==> forall|j: int| 0 <= j < k ==> use_dominated(*f, #[trigger] operands@[j], b as int, pos as int),
                    reports_exactly(errors@, mid2.len() as int, name@, *f, undominated_of(*f, operands@, b as int, pos as int, k as int), b as int),
                    start.len() <= mid2.len(),
                    forall|j: int| 0 <= j < k && !use_dominated(*f, #[trigger] operands@[j], b as int, pos as int)
                        ==> reports_not_dominated(errors@, start.len() as int, name@, *f, operands@[j], b as int),
                decreases operands@.len() - k,
            {
                let ghost before = errors@;
                check_use(f, name, info, operands[k], b, pos, errors);
                proof {
                    let u = undominated_of(*f, operands@, b as int, pos as int, k as int);
                    if !use_dominated(*f, operands@[k as int], b as int, pos as int) {
                        assert forall|j: int| 0 <= j < u.len() + 1 implies is_not_dominated(
                            #[trigger] errors@[mid2.len() + j],
                            name@,
                            *f,
                            u.push(operands@[k as int])[j],
                            b as int,
                        ) by {
                            if j < u.len() {
                                assert(errors@[mid2.len() + j] == before[mid2.len() + j]);
                            }
                        }
                    }
                    if errors@.len() == mid2.len() {
                        assert(before.len() == mid2.len());
                    }
                    assert forall|j: int| 0 <= j < k + 1 && !use_dominated(*f, #[trigger] operands@[j], b as int, pos as int)
                        implies reports_not_dominated(errors@, start.len() as int, name@, *f, operands@[j], b as int) by {
                        if j < k {
                            lemma_not_dominated_kept(before, errors@, start.len() as int, start.len() as int, name@, *f, operands@[j], b as int);
                        } else {
                            assert(is_not_dominated(errors@[errors@.len() - 1], name@, *f, operands@[j], b as int));
                        }
                    }
                }
                k = k + 1;
            }
            proof {
                assert(operands@ == term_operands(*t));
                lemma_reports_concat(
                    mid2,
                    errors@,
                    start.len() as int,
                    name@,
                    *f,
                    undominated_in_insts(*f, b as int, ni as int),
                    undominated_of(*f, operands@, b as int, pos as int, operands@.len() as int),
                    b as int,
                );
                let insts2 = f.blocks@[b as int].instructions@;
                assert forall|i: int, kk: int|
                    0 <= i < insts2.len() && 0 <= kk < inst_operands(insts2[i].kind).len() && !use_dominated(
                        *f,
                        #[trigger] inst_operands(insts2[i].kind)[kk],
                        b as int,
                        i + 1,
                    ) implies reports_not_dominated(errors@, start.len() as int, name@, *f, inst_operands(insts2[i].kind)[kk], b as int) by {
                    lemma_not_dominated_kept(mid2, errors@, start.len() as int, start.len() as int, name@, *f, inst_operands(insts2[i].kind)[kk], b as int);
                }
                assert forall|kk: int|
                    0 <= kk < term_operands(*t).len() && !use_dominated(*f, #[trigger] term_operands(*t)[kk], b as int, insts2.len() as int + 1)
                    implies reports_not_dominated(errors@, start.len() as int, name@, *f, term_operands(*t)[kk], b as int) by {
                    assert(operands@[kk] == term_operands(*t)[kk]);
                }
            }
        },
        None => {
            proof {
                assert(undominated_in_insts(*f, b as int, ni as int) + Seq::<ValueId>::empty() =~= undominated_in_insts(
                    *f,
                    b as int,
                    ni as int,
                ));
            }
        },
    }
}

/// Checks terminators, branch arguments and dominance of uses of `f`.
pub fn check_cfg(m: &Module, f: &Function, name: &str, errors: &mut Vec<VerifyError>)
    ensures
        extends(old(errors)@, final(errors)@),
        final(errors)@.len() == old(errors)@.len() <==> cfg_valid(*m, *f),
        forall|b: int| 0 <= b < f.blocks@.len() ==> #[trigger] undominated_uses_reported(*f, final(errors)@, old(errors)@.len() as int, name@, b),
        exists|m: int| old(errors)@.len() <= m && reports_uses_exactly(final(errors)@, m, name@, *f, undominated_uses(*f, f.blocks@.len() as int)),
{
    let info = CfgInfo::compute(f);
    let ghost start = errors@;
    let n = f.blocks.len();
    let mut bi: usize = 0;
    while bi < n
        invariant
            n == f.blocks@.len(),
            bi <= n,
            extends(start, errors@),
            errors@.len() == start.len() <==> forall|b: int| 0 <= b < bi ==> ((#[trigger] f.blocks@[b]).terminator matches Some(t) && term_ok(
                *m,
                *f,
                t,
            )),
        decreases n - bi,
    {
        let ghost before = errors@;
        match &f.blocks[bi].terminator {
            Some(t) => check_terminator(m, f, name, bi, t, errors),
            None => {
                errors.push(VerifyError::MissingTerminator { function: name.to_owned(), block: #[verifier::truncate] (bi as u32) });
            },
        }
        proof {
            if errors@.len() == start.len() {
                assert(before.len() == start.len());
            }
        }
        bi = bi + 1;
    }
    let ghost mid = errors@;
    let mut bj: usize = 0;
    while bj < n
        invariant
            n == f.blocks@.len(),
            info.describes(*f),
            bj <= n,
            extends(start, mid),
            extends(mid, errors@),
            mid.len() == start.len() <==> forall|b: int| 0 <= b < n ==> ((#[trigger] f.blocks@[b]).terminator matches Some(t) && term_ok(
                *m,
                *f,
                t,
            )),
            errors@.len() == mid.len() <==> forall|b: int| 0 <= b < bj ==> #[trigger] uses_dominated(*f, b),
            start.len() <= mid.len(),
            forall|b: int| 0 <= b < bj ==> #[trigger] undominated_uses_reported(*f, errors@, start.len() as int, name@, b),
            reports_uses_exactly(errors@, mid.len() as int, name@, *f, undominated_uses(*f, bj as int)),
        decreases n - bj,
    {
        let ghost before = errors@;
        check_block_uses(f, name, &info, bj, errors);
        proof {
            lemma_uses_concat(before, errors@, mid.len() as int, name@, *f, undominated_uses(*f, bj as int), undominated_in_block(*f, bj as int), bj as int);
            if errors@.len() == mid.len() {
                assert(before.len() == mid.len());
            }
            assert forall|b: int| 0 <= b < bj + 1 implies #[trigger] undominated_uses_reported(*f, errors@, start.len() as int, name@, b) by {
                if b < bj {
                    lemma_uses_kept(*f, before, errors@, start.len() as int, start.len() as int, name@, b);
                } else {
                    lemma_uses_kept(*f, errors@, errors@, before.len() as int, start.len() as int, name@, b);
                }
            }
        }
        bj = bj + 1;
    }
}

} // verus!
