//! Processes of instances, and what their directories and Docker allow.
use vstd::prelude::*;
use vstd::string::*;

use crate::model::{endpoint_views, ServiceEndpoint, ServiceEndpointView};
use crate::number::{decimal, decimal_text, parse_up_to, parse_unsigned};
use crate::search::{trim, trimmed};
use crate::split::{lines, text_lines};
use crate::text::{join, join_texts, list_has, opt_text, owned, same, texts};
use crate::tools::{run_cli, shown_command, CommandResult};
use crate::urls::{endpoint_port, named_port};

verus! {

// ---------------------------------------------------------------------------------------------
// Numbers of processes
// ---------------------------------------------------------------------------------------------
/// The numbers of processes that lines hold.
pub open spec fn pids_in(list: Seq<Seq<char>>) -> Seq<u32>
    decreases list.len(),
{
    if list.len() == 0 {
        seq![]
    } else {
        let rest = pids_in(list.drop_last());
        match parse_unsigned(trim(list.last()), u32::MAX as nat) {
            Some(pid) => rest.push(pid as u32),
            None => rest,
        }
    }
}

/// The numbers of processes that an output holds, one in a line.
pub fn process_ids(output: &str) -> (out: Vec<u32>)
    ensures
        out@ == pids_in(lines(output@)),
{
    let list: Vec<String> = text_lines(output);
    let ghost all = lines(output@);
    let mut out: Vec<u32> = Vec::new();
    let mut i: usize = 0;
    proof {
        assert(all.take(0) =~= Seq::<Seq<char>>::empty());
    }
    while i < list.len()
        invariant
            i <= list@.len(),
            texts(list@) == all,
            out@ == pids_in(all.take(i as int)),
        decreases list@.len() - i,
    {
        proof {
            assert(all[i as int] == list@[i as int]@);
            assert(all.take(i + 1).drop_last() =~= all.take(i as int));
            assert(all.take(i + 1).last() == all[i as int]);
        }
        let t: String = trimmed(list[i].as_str());
        match parse_up_to(t.as_str(), u32::MAX as u64) {
            Some(pid) => {
                out.push(pid as u32);
            },
            None => {},
        }
        i += 1;
    }
    proof {
        assert(all.take(i as int) =~= all);
    }
    out
}

/// The children of a process, by the answer of `pgrep`; none where it failed.
pub fn child_process_ids(success: bool, stdout: &str) -> (out: Vec<u32>)
    ensures
        out@ == (if success {
            pids_in(lines(stdout@))
        } else {
            seq![]
        }),
{
    if success {
        process_ids(stdout)
    } else {
        Vec::new()
    }
}

/// A walk over a process and all that descend from it.
#[derive(Debug)]
pub struct ProcessWalk {
    /// The processes whose children are not known yet, in the order in which they are asked.
    pub pending: Vec<u32>,
    /// The processes that were reached, each before those that descend from it.
    pub found: Vec<u32>,
}

/// Starts at a process.
pub fn start_walk(root: u32) -> (walk: ProcessWalk)
    ensures
        walk.pending@ == seq![root],
        walk.found@ == Seq::<u32>::empty(),
{
    let mut pending: Vec<u32> = Vec::new();
    pending.push(root);
    ProcessWalk { pending, found: Vec::new() }
}

/// Takes the children of the next process in: it is found, and they come next.
pub fn take_children(walk: &mut ProcessWalk, children: &Vec<u32>)
    ensures
        old(walk).pending@.len() == 0 ==> *final(walk) == *old(walk),
        old(walk).pending@.len() > 0 ==> final(walk).found@ == old(walk).found@.push(
            old(walk).pending@[0],
        ) && final(walk).pending@ == children@ + old(walk).pending@.skip(1),
{
    if walk.pending.len() == 0 {
        return ;
    }
    let ghost rest = walk.pending@.skip(1);
    let ghost asked = walk.pending@[0];
    let ghost before = walk.found@;
    let mut pending: Vec<u32> = Vec::new();
    let mut i: usize = 0;
    while i < children.len()
        invariant
            i <= children@.len(),
            pending@ == children@.take(i as int),
        decreases children@.len() - i,
    {
        pending.push(children[i]);
        i += 1;
        proof {
            assert(pending@ =~= children@.take(i as int));
        }
    }
    let mut k: usize = 1;
    proof {
        assert(children@.take(i as int) =~= children@);
        assert(pending@ =~= children@ + rest.take(0));
    }
    while k < walk.pending.len()
        invariant
            1 <= k <= walk.pending@.len(),
            rest == walk.pending@.skip(1),
            asked == walk.pending@[0],
            before == walk.found@,
            pending@ == children@ + rest.take(k - 1),
        decreases walk.pending@.len() - k,
    {
        pending.push(walk.pending[k]);
        k += 1;
        proof {
            assert(pending@ =~= children@ + rest.take(k - 1));
        }
    }
    proof {
        assert(rest.take(k - 1) =~= rest);
    }
    let next: u32 = walk.pending[0];
    walk.found.push(next);
    walk.pending = pending;
}

/// Where a walk stands after the children of up to `n` more processes were taken in: what is
/// pending, and what was found.
pub open spec fn walk_from(
    children: spec_fn(u32) -> Seq<u32>,
    pending: Seq<u32>,
    found: Seq<u32>,
    n: nat,
) -> (Seq<u32>, Seq<u32>)
    decreases n,
{
    if n == 0 || pending.len() == 0 {
        (pending, found)
    } else {
        walk_from(
            children,
            children(pending[0]) + pending.skip(1),
            found.push(pending[0]),
            (n - 1) as nat,
        )
    }
}

/// No line of descent that starts at one of the processes has more than `depth` members.
pub open spec fn descent_within(
    children: spec_fn(u32) -> Seq<u32>,
    pids: Seq<u32>,
    depth: nat,
) -> bool
    decreases depth, pids.len(),
{
    pids.len() == 0 || depth > 0 && descent_within(
        children,
        children(pids[0]),
        (depth - 1) as nat,
    ) && descent_within(children, pids.skip(1), depth)
}

/// The processes and all that descend from them, down to `depth` members of a line: each one, then
/// what descends from its children, then the next one.
pub open spec fn preorder(
    children: spec_fn(u32) -> Seq<u32>,
    pids: Seq<u32>,
    depth: nat,
) -> Seq<u32>
    decreases depth, pids.len(),
{
    if pids.len() == 0 || depth == 0 {
        seq![]
    } else {
        seq![pids[0]] + preorder(children, children(pids[0]), (depth - 1) as nat) + preorder(
            children,
            pids.skip(1),
            depth,
        )
    }
}

/// Each member of a line of descent but the first is a child of the one before.
pub open spec fn is_line_of_descent(children: spec_fn(u32) -> Seq<u32>, line: Seq<u32>) -> bool {
    line.len() > 0 && forall|i: int|
        0 < i < line.len() ==> children(line[i - 1]).contains(#[trigger] line[i])
}

/// A process is another one or descends from it.
pub open spec fn descends(children: spec_fn(u32) -> Seq<u32>, from: u32, pid: u32) -> bool {
    exists|line: Seq<u32>| #[trigger]
        is_line_of_descent(children, line) && line[0] == from && line.last() == pid
}

proof fn lemma_preorder_of_both(
    children: spec_fn(u32) -> Seq<u32>,
    first: Seq<u32>,
    second: Seq<u32>,
    depth: nat,
)
    ensures
        descent_within(children, first + second, depth) <==> descent_within(children, first, depth)
            && descent_within(children, second, depth),
        preorder(children, first + second, depth) == preorder(children, first, depth) + preorder(
            children,
            second,
            depth,
        ),
    decreases first.len(),
{
    if first.len() == 0 {
        assert(first + second =~= second);
        assert(Seq::<u32>::empty() + preorder(children, second, depth) =~= preorder(
            children,
            second,
            depth,
        ));
    } else {
        lemma_preorder_of_both(children, first.skip(1), second, depth);
        assert((first + second).skip(1) =~= first.skip(1) + second);
        assert((first + second)[0] == first[0]);
        if depth > 0 {
            let below = seq![first[0]] + preorder(
                children,
                children(first[0]),
                (depth - 1) as nat,
            );
            let rest = preorder(children, first.skip(1), depth);
            let last = preorder(children, second, depth);
            assert(below + (rest + last) =~= (below + rest) + last);
        }
    }
}

proof fn lemma_preorder_is_complete(
    children: spec_fn(u32) -> Seq<u32>,
    pids: Seq<u32>,
    depth: nat,
)
    requires
        descent_within(children, pids, depth),
    ensures
        descent_within(children, pids, depth + 1),
        preorder(children, pids, depth + 1) == preorder(children, pids, depth),
    decreases depth, pids.len(),
{
    if pids.len() > 0 {
        lemma_preorder_is_complete(children, children(pids[0]), (depth - 1) as nat);
        lemma_preorder_is_complete(children, pids.skip(1), depth);
    }
}

proof fn lemma_walk_is_preorder(
    children: spec_fn(u32) -> Seq<u32>,
    pending: Seq<u32>,
    found: Seq<u32>,
    n: nat,
)
    requires
        walk_from(children, pending, found, n).0.len() == 0,
    ensures
        descent_within(children, pending, n),
        walk_from(children, pending, found, n).1 == found + preorder(children, pending, n),
    decreases n,
{
    if pending.len() == 0 {
        assert(found + Seq::<u32>::empty() =~= found);
    } else {
        let pid = pending[0];
        let below = children(pid);
        let rest = pending.skip(1);
        let less = (n - 1) as nat;
        lemma_walk_is_preorder(children, below + rest, found.push(pid), less);
        lemma_preorder_of_both(children, below, rest, less);
        lemma_preorder_is_complete(children, rest, less);
        assert(found.push(pid) + (preorder(children, below, less) + preorder(children, rest, less))
            =~= found + (seq![pid] + preorder(children, below, less) + preorder(
            children,
            rest,
            less,
        )));
    }
}

proof fn lemma_preorder_descends(
    children: spec_fn(u32) -> Seq<u32>,
    pids: Seq<u32>,
    depth: nat,
    pid: u32,
) -> (k: int)
    requires
        preorder(children, pids, depth).contains(pid),
    ensures
        0 <= k < pids.len(),
        descends(children, pids[k], pid),
    decreases depth, pids.len(),
{
    let root = pids[0];
    let below = preorder(children, children(root), (depth - 1) as nat);
    let rest = preorder(children, pids.skip(1), depth);
    let all = preorder(children, pids, depth);
    let m = choose|m: int| 0 <= m < all.len() && all[m] == pid;
    if m == 0 {
        let line = seq![root];
        assert(is_line_of_descent(children, line) && line[0] == root && line.last() == pid);
        0
    } else if m <= below.len() {
        assert(below[m - 1] == pid);
        let c = lemma_preorder_descends(children, children(root), (depth - 1) as nat, pid);
        let tail = choose|line: Seq<u32>| #[trigger]
            is_line_of_descent(children, line) && line[0] == children(root)[c] && line.last()
                == pid;
        let line = seq![root] + tail;
        assert forall|i: int| 0 < i < line.len() implies children(line[i - 1]).contains(
            #[trigger] line[i],
        ) by {
            assert(line[i] == tail[i - 1]);
            if i > 1 {
                assert(line[i - 1] == tail[i - 2]);
            }
        }
        assert(is_line_of_descent(children, line) && line[0] == root && line.last() == pid);
        0
    } else {
        assert(rest[m - 1 - below.len()] == pid);
        let k = lemma_preorder_descends(children, pids.skip(1), depth, pid);
        k + 1
    }
}

proof fn lemma_line_is_in_preorder(
    children: spec_fn(u32) -> Seq<u32>,
    pids: Seq<u32>,
    depth: nat,
    line: Seq<u32>,
)
    requires
        descent_within(children, pids, depth),
        is_line_of_descent(children, line),
        pids.contains(line[0]),
    ensures
        preorder(children, pids, depth).contains(line.last()),
    decreases depth, pids.len(),
{
    let root = pids[0];
    let below = preorder(children, children(root), (depth - 1) as nat);
    let rest = preorder(children, pids.skip(1), depth);
    let all = preorder(children, pids, depth);
    let k = choose|k: int| 0 <= k < pids.len() && pids[k] == line[0];
    if k > 0 {
        assert(pids.skip(1)[k - 1] == line[0]);
        lemma_line_is_in_preorder(children, pids.skip(1), depth, line);
        let m = choose|m: int| 0 <= m < rest.len() && rest[m] == line.last();
        assert(all[1 + below.len() + m] == line.last());
    } else if line.len() == 1 {
        assert(all[0] == line.last());
    } else {
        let tail = line.skip(1);
        assert(children(line[0]).contains(line[1]));
        assert forall|i: int| 0 < i < tail.len() implies children(tail[i - 1]).contains(
            #[trigger] tail[i],
        ) by {
            assert(tail[i] == line[i + 1]);
        }
        lemma_line_is_in_preorder(children, children(root), (depth - 1) as nat, tail);
        let m = choose|m: int| 0 <= m < below.len() && below[m] == tail.last();
        assert(all[1 + m] == line.last());
    }
}

/// A child of the process at `i` is found behind it.
proof fn lemma_child_follows(
    children: spec_fn(u32) -> Seq<u32>,
    pids: Seq<u32>,
    depth: nat,
    i: int,
    child: u32,
) -> (j: int)
    requires
        descent_within(children, pids, depth),
        0 <= i < preorder(children, pids, depth).len(),
        children(preorder(children, pids, depth)[i]).contains(child),
    ensures
        i < j < preorder(children, pids, depth).len(),
        preorder(children, pids, depth)[j] == child,
    decreases depth, pids.len(),
{
    let root = pids[0];
    let below = preorder(children, children(root), (depth - 1) as nat);
    let rest = preorder(children, pids.skip(1), depth);
    let all = preorder(children, pids, depth);
    if i == 0 {
        let line = seq![child];
        lemma_line_is_in_preorder(children, children(root), (depth - 1) as nat, line);
        let m = choose|m: int| 0 <= m < below.len() && below[m] == child;
        assert(all[1 + m] == child);
        1 + m
    } else if i <= below.len() {
        assert(all[i] == below[i - 1]);
        let m = lemma_child_follows(children, children(root), (depth - 1) as nat, i - 1, child);
        assert(all[1 + m] == child);
        1 + m
    } else {
        assert(all[i] == rest[i - 1 - below.len()]);
        let m = lemma_child_follows(
            children,
            pids.skip(1),
            depth,
            i - 1 - below.len(),
            child,
        );
        assert(all[1 + below.len() + m] == child);
        1 + below.len() + m
    }
}

/// Along a line of descent the places go up, where nothing is found twice.
proof fn lemma_line_goes_up(
    children: spec_fn(u32) -> Seq<u32>,
    pids: Seq<u32>,
    depth: nat,
    line: Seq<u32>,
    i: int,
    j: int,
)
    requires
        descent_within(children, pids, depth),
        preorder(children, pids, depth).no_duplicates(),
        is_line_of_descent(children, line),
        0 <= i < preorder(children, pids, depth).len(),
        0 <= j < preorder(children, pids, depth).len(),
        preorder(children, pids, depth)[i] == line[0],
        preorder(children, pids, depth)[j] == line.last(),
    ensures
        i <= j,
    decreases line.len(),
{
    if line.len() > 1 {
        let tail = line.skip(1);
        assert(children(line[0]).contains(line[1]));
        assert forall|k: int| 0 < k < tail.len() implies children(tail[k - 1]).contains(
            #[trigger] tail[k],
        ) by {
            assert(tail[k] == line[k + 1]);
        }
        let m = lemma_child_follows(children, pids, depth, i, line[1]);
        lemma_line_goes_up(children, pids, depth, tail, m, j);
    }
}

/// A walk that has nothing pending any more has found the tree below its root in preorder: exactly
/// the root and what descends from it, and each child of a process behind that process. Where no
/// process is found twice, each stands before all that descend from it.
pub proof fn law_walk_finds_the_tree(children: spec_fn(u32) -> Seq<u32>, root: u32, n: nat)
    requires
        walk_from(children, seq![root], seq![], n).0.len() == 0,
    ensures
        ({
            let found = walk_from(children, seq![root], seq![], n).1;
            &&& descent_within(children, seq![root], n)
            &&& found == preorder(children, seq![root], n)
            &&& forall|pid: u32| #[trigger]
                found.contains(pid) <==> descends(children, root, pid)
            &&& forall|i: int, child: u32|
                0 <= i < found.len() && #[trigger] children(found[i]).contains(child)
                    ==> exists|j: int| i < j < found.len() && #[trigger] found[j] == child
            &&& found.no_duplicates() ==> forall|i: int, j: int|
                0 <= i < found.len() && 0 <= j < found.len() && #[trigger] descends(
                    children,
                    found[i],
                    found[j],
                ) ==> i <= j
        }),
{
    let start = seq![root];
    let found = walk_from(children, start, seq![], n).1;
    lemma_walk_is_preorder(children, start, seq![], n);
    assert(found =~= preorder(children, start, n));
    assert forall|pid: u32| #[trigger] found.contains(pid) <==> descends(children, root, pid) by {
        if found.contains(pid) {
            let k = lemma_preorder_descends(children, start, n, pid);
            assert(start[k] == root);
        }
        if descends(children, root, pid) {
            let line = choose|line: Seq<u32>| #[trigger]
                is_line_of_descent(children, line) && line[0] == root && line.last() == pid;
            assert(start[0] == root);
            lemma_line_is_in_preorder(children, start, n, line);
        }
    }
    assert forall|i: int, child: u32|
        0 <= i < found.len() && #[trigger] children(found[i]).contains(child) implies exists|j: int|
        i < j < found.len() && #[trigger] found[j] == child by {
        let j = lemma_child_follows(children, start, n, i, child);
        assert(found[j] == child);
    }
    if found.no_duplicates() {
        assert forall|i: int, j: int|
            0 <= i < found.len() && 0 <= j < found.len() && #[trigger] descends(
                children,
                found[i],
                found[j],
            ) implies i <= j by {
            let line = choose|line: Seq<u32>| #[trigger]
                is_line_of_descent(children, line) && line[0] == found[i] && line.last()
                    == found[j];
            lemma_line_goes_up(children, start, n, line, i, j);
        }
    }
}

proof fn lemma_walk_passes(
    children: spec_fn(u32) -> Seq<u32>,
    pids: Seq<u32>,
    rest: Seq<u32>,
    found: Seq<u32>,
    depth: nat,
    n: nat,
)
    requires
        descent_within(children, pids, depth),
    ensures
        walk_from(
            children,
            pids + rest,
            found,
            preorder(children, pids, depth).len() + n,
        ) == walk_from(children, rest, found + preorder(children, pids, depth), n),
    decreases depth, pids.len(),
{
    if pids.len() == 0 {
        assert(pids + rest =~= rest);
        assert(found + Seq::<u32>::empty() =~= found);
    } else {
        let pid = pids[0];
        let below = children(pid);
        let others = pids.skip(1);
        let less = (depth - 1) as nat;
        let a = preorder(children, below, less);
        let b = preorder(children, others, depth);
        lemma_walk_passes(children, below, others + rest, found.push(pid), less, b.len() + n);
        lemma_walk_passes(children, others, rest, found.push(pid) + a, depth, n);
        assert((pids + rest)[0] == pid);
        assert((pids + rest).skip(1) =~= others + rest);
        assert(found + (seq![pid] + a + b) =~= found.push(pid) + a + b);
        assert((1 + a.len() + b.len() + n - 1) as nat == a.len() + (b.len() + n));
    }
}

/// A tree of processes that ends is walked to the end: one answer for each process of it leaves
/// nothing pending.
pub proof fn law_walk_ends(children: spec_fn(u32) -> Seq<u32>, root: u32, depth: nat)
    requires
        descent_within(children, seq![root], depth),
    ensures
        ({
            let n = preorder(children, seq![root], depth).len();
            walk_from(children, seq![root], seq![], n).0.len() == 0
        }),
{
    lemma_walk_passes(children, seq![root], seq![], seq![], depth, 0);
    assert(seq![root] + Seq::<u32>::empty() =~= seq![root]);
}

/// A list is ascending and holds nothing twice.
pub open spec fn ascending(list: Seq<u32>) -> bool {
    forall|i: int, j: int| 0 <= i < j < list.len() ==> list[i] < list[j]
}

/// The processes that are stopped: each once, in ascending order.
pub fn stopping_order(pids: &Vec<u32>) -> (out: Vec<u32>)
    ensures
        ascending(out@),
        forall|pid: u32| out@.contains(pid) <==> pids@.contains(pid),
{
    let mut out: Vec<u32> = Vec::new();
    let mut i: usize = 0;
    while i < pids.len()
        invariant
            i <= pids@.len(),
            ascending(out@),
            forall|pid: u32| out@.contains(pid) <==> pids@.take(i as int).contains(pid),
        decreases pids@.len() - i,
    {
        let x: u32 = pids[i];
        let ghost before = out@;
        let mut p: usize = out.len();
        while p > 0 && out[p - 1] > x
            invariant
                p <= out@.len(),
                out@ == before,
                forall|k: int| p <= k < out@.len() ==> out@[k] > x,
            decreases p,
        {
            p -= 1;
        }
        let known: bool = p > 0 && out[p - 1] == x;
        if !known {
            out.insert(p, x);
        }
        proof {
            let next = pids@.take(i + 1);
            assert(next =~= pids@.take(i as int).push(x));
            assert forall|pid: u32| out@.contains(pid) <==> next.contains(pid) by {
                if out@.contains(pid) && !known {
                    let k = choose|k: int| 0 <= k < out@.len() && out@[k] == pid;
                    if k == p {
                        assert(next[i as int] == pid);
                    } else {
                        let j = if k < p {
                            k
                        } else {
                            k - 1
                        };
                        assert(before[j] == pid);
                        assert(before.contains(pid));
                        assert(pids@.take(i as int).contains(pid));
                        let m = choose|m: int|
                            0 <= m < i && pids@.take(i as int)[m] == pid;
                        assert(next[m] == pid);
                    }
                }
                if out@.contains(pid) && known {
                    assert(pids@.take(i as int).contains(pid));
                    let m = choose|m: int| 0 <= m < i && pids@.take(i as int)[m] == pid;
                    assert(next[m] == pid);
                }
                if next.contains(pid) {
                    let m = choose|m: int| 0 <= m < next.len() && next[m] == pid;
                    if m == i {
                        if known {
                            assert(out@[p - 1] == pid);
                        } else {
                            assert(out@[p as int] == pid);
                        }
                    } else {
                        assert(pids@.take(i as int)[m] == pid);
                        assert(before.contains(pid));
                        let k = choose|k: int| 0 <= k < before.len() && before[k] == pid;
                        if known {
                            assert(out@[k] == pid);
                        } else if k < p {
                            assert(out@[k] == pid);
                        } else {
                            assert(out@[k + 1] == pid);
                        }
                    }
                }
            }
        }
        i += 1;
    }
    proof {
        assert(pids@.take(i as int) =~= pids@);
    }
    out
}

// ---------------------------------------------------------------------------------------------
// Processes that listen for an instance
// ---------------------------------------------------------------------------------------------
/// The port of an endpoint is among the ports.
pub open spec fn is_endpoint_port(endpoints: Seq<ServiceEndpointView>, port: u16) -> bool {
    exists|k: int|
        0 <= k < endpoints.len() && named_port((#[trigger] endpoints[k]).url) == Some(port as nat)
}

/// The ports of the endpoints of an instance, each once.
pub fn listening_ports(endpoints: &Vec<ServiceEndpoint>) -> (out: Vec<u16>)
    ensures
        out@.no_duplicates(),
        forall|port: u16|
            out@.contains(port) <==> is_endpoint_port(endpoint_views(endpoints@), port),
{
    let ghost all = endpoint_views(endpoints@);
    let mut out: Vec<u16> = Vec::new();
    let mut i: usize = 0;
    while i < endpoints.len()
        invariant
            i <= endpoints@.len(),
            all == endpoint_views(endpoints@),
            out@.no_duplicates(),
            forall|port: u16|
                out@.contains(port) <==> is_endpoint_port(all.take(i as int), port),
        decreases endpoints@.len() - i,
    {
        let ghost before = out@;
        proof {
            assert(all[i as int] == endpoints@[i as int]@);
        }
        let found: Option<u16> = endpoint_port(endpoints[i].url.as_str());
        match found {
            Some(port) => {
                if !crate::ports::has_port(&out, port) {
                    out.push(port);
                }
            },
            None => {},
        }
        proof {
            let next = all.take(i + 1);
            assert forall|port: u16| out@.contains(port) <==> is_endpoint_port(next, port) by {
                if out@.contains(port) {
                    let k = choose|k: int| 0 <= k < out@.len() && out@[k] == port;
                    if k < before.len() {
                        assert(before[k] == port);
                        assert(before.contains(port));
                        assert(is_endpoint_port(all.take(i as int), port));
                        let m = choose|m: int|
                            0 <= m < i && named_port((#[trigger] all.take(i as int)[m]).url)
                                == Some(port as nat);
                        assert(next[m] == all.take(i as int)[m]);
                    } else {
                        assert(named_port(next[i as int].url) == Some(port as nat));
                    }
                }
                if is_endpoint_port(next, port) {
                    let m = choose|m: int|
                        0 <= m < next.len() && named_port((#[trigger] next[m]).url) == Some(
                            port as nat,
                        );
                    if m == i {
                        assert(found == Some(port));
                        if before.contains(port) {
                            assert(out@ == before);
                        } else {
                            assert(out@[before.len() as int] == port);
                        }
                    } else {
                        assert(all.take(i as int)[m] == next[m]);
                        assert(is_endpoint_port(all.take(i as int), port));
                        assert(before.contains(port));
                        let k = choose|k: int| 0 <= k < before.len() && before[k] == port;
                        assert(out@[k] == port);
                    }
                }
            }
        }
        i += 1;
    }
    proof {
        assert(all.take(i as int) =~= all);
    }
    out
}

/// The processes that outputs name, one output behind the other.
pub open spec fn pids_of_all(outputs: Seq<Seq<char>>) -> Seq<u32>
    decreases outputs.len(),
{
    if outputs.len() == 0 {
        seq![]
    } else {
        pids_of_all(outputs.drop_last()) + pids_in(lines(outputs.last()))
    }
}

/// The processes that listen on the ports of an instance, by the answers of `lsof`.
pub fn listener_process_ids(outputs: &Vec<String>) -> (out: Vec<u32>)
    ensures
        out@ == pids_of_all(texts(outputs@)),
{
    let ghost all = texts(outputs@);
    let mut out: Vec<u32> = Vec::new();
    let mut i: usize = 0;
    proof {
        assert(all.take(0) =~= Seq::<Seq<char>>::empty());
    }
    while i < outputs.len()
        invariant
            i <= outputs@.len(),
            all == texts(outputs@),
            out@ == pids_of_all(all.take(i as int)),
        decreases outputs@.len() - i,
    {
        proof {
            assert(all[i as int] == outputs@[i as int]@);
            assert(all.take(i + 1).drop_last() =~= all.take(i as int));
            assert(all.take(i + 1).last() == all[i as int]);
        }
        let mut more: Vec<u32> = process_ids(outputs[i].as_str());
        out.append(&mut more);
        i += 1;
    }
    proof {
        assert(all.take(i as int) =~= all);
    }
    out
}

/// The name of the program of a process, by the answer of `ps`.
pub fn process_executable(success: bool, stdout: &str) -> (out: String)
    ensures
        out@ == (if success && trim(stdout@).len() > 0 {
            trim(stdout@)
        } else {
            "unknown process"@
        }),
{
    if success {
        let name: String = trimmed(stdout);
        if !name.as_str().is_empty() {
            return name;
        }
    }
    owned("unknown process")
}

// ---------------------------------------------------------------------------------------------
// What is said of stopped processes
// ---------------------------------------------------------------------------------------------
/// A process that was stopped.
#[derive(Debug)]
pub struct StoppedProcess {
    pub pid: u32,
    pub executable: String,
}

/// The numbers of processes as texts.
pub open spec fn pid_texts(pids: Seq<u32>) -> Seq<Seq<char>> {
    pids.map_values(|p: u32| decimal(p as nat))
}

/// What is said where processes could not be stopped.
pub open spec fn still_running_message(pids: Seq<u32>) -> Seq<char> {
    "Failed to stop the following processes: ["@ + join(pid_texts(pids), ", "@) + "]"@
}

/// Whether all processes are stopped: none of them may still run.
pub fn check_stopped(still_running: &Vec<u32>) -> (r: Result<(), String>)
    ensures
        match r {
            Ok(_) => still_running@.len() == 0,
            Err(message) => still_running@.len() > 0 && message@ == still_running_message(
                still_running@,
            ),
        },
{
    if still_running.len() == 0 {
        return Ok(());
    }
    let mut list: Vec<String> = Vec::new();
    let mut i: usize = 0;
    while i < still_running.len()
        invariant
            i <= still_running@.len(),
            list@.len() == i,
            forall|k: int|
                0 <= k < i ==> (#[trigger] list@[k])@ == decimal(still_running@[k] as nat),
        decreases still_running@.len() - i,
    {
        list.push(decimal_text(still_running[i] as u64));
        i += 1;
    }
    proof {
        assert(texts(list@) =~= pid_texts(still_running@));
    }
    Err(
        owned("Failed to stop the following processes: [").concat(
            join_texts(&list, ", ").as_str(),
        ).concat("]"),
    )
}

/// One line on a stopped process.
pub open spec fn process_line(process: StoppedProcess) -> Seq<char> {
    "  PID "@ + decimal(process.pid as nat) + "  "@ + process.executable@
}

/// What the log says of stopped processes.
pub open spec fn stop_message(work_dir: Seq<char>, stopped: Seq<StoppedProcess>) -> Seq<char> {
    "Instance associated processes stopped\nWorking directory: "@ + work_dir
        + "\nProcess count: "@ + decimal(stopped.len()) + "\nDetails:\n"@ + (if stopped.len() == 0 {
        "  No running associated processes found"@
    } else {
        join(stopped.map_values(|p: StoppedProcess| process_line(p)), "\n"@)
    })
}

/// What the log says of stopped processes.
pub fn stop_report(work_dir: &str, stopped: &Vec<StoppedProcess>) -> (out: String)
    ensures
        out@ == stop_message(work_dir@, stopped@),
{
    let mut list: Vec<String> = Vec::new();
    let mut i: usize = 0;
    while i < stopped.len()
        invariant
            i <= stopped@.len(),
            list@.len() == i,
            forall|k: int| 0 <= k < i ==> (#[trigger] list@[k])@ == process_line(stopped@[k]),
        decreases stopped@.len() - i,
    {
        list.push(
            owned("  PID ").concat(decimal_text(stopped[i].pid as u64).as_str()).concat(
                "  ",
            ).concat(stopped[i].executable.as_str()),
        );
        i += 1;
    }
    proof {
        assert(texts(list@) =~= stopped@.map_values(|p: StoppedProcess| process_line(p)));
    }
    let details: String = if stopped.len() == 0 {
        owned("  No running associated processes found")
    } else {
        join_texts(&list, "\n")
    };
    owned("Instance associated processes stopped\nWorking directory: ").concat(work_dir).concat(
        "\nProcess count: ",
    ).concat(decimal_text(stopped.len() as u64).as_str()).concat("\nDetails:\n").concat(
        details.as_str(),
    )
}

// ---------------------------------------------------------------------------------------------
// Commands in the directory of an instance
// ---------------------------------------------------------------------------------------------
/// The outcome of an `agentseek` command in the directory of an instance.
pub fn run_instance_cli(
    program: &str,
    args: &Vec<String>,
    code: Option<i32>,
    stdout: &str,
    stderr: &str,
) -> (r: CommandResult)
    ensures
        r.code == (match code {
            Some(c) => c,
            None => 1,
        }),
        r.output@ == trim(stdout@ + stderr@),
        r.command@ == shown_command(program@, texts(args@)),
{
    run_cli(program, args, code, stdout, stderr)
}

/// How a command that was logged line by line ended.
#[derive(Debug)]
pub struct LoggedOutcome {
    pub level: &'static str,
    pub message: String,
    pub result: Result<CommandResult, String>,
}

/// How a command that was logged line by line ended. Its output is what it printed, then what it
/// printed as errors; a command that fails silently is named.
pub fn run_and_log(
    printable: &str,
    code: Option<i32>,
    stdout: &Vec<String>,
    stderr: &Vec<String>,
    seconds: u64,
) -> (r: LoggedOutcome)
    ensures
        ({
            let ended = if code is Some {
                code->0
            } else {
                1
            };
            let output = join(texts(stdout@) + texts(stderr@), "\n"@);
            &&& r.level@ == (if ended == 0 {
                "success"@
            } else {
                "error"@
            })
            &&& r.message@ == (if ended == 0 {
                "Command completed: "@
            } else {
                "Command failed: "@
            }) + printable@ + " ("@ + decimal(seconds as nat) + " seconds)"@
            &&& match r.result {
                Ok(done) => ended == 0 && done.code == 0 && done.output@ == output
                    && done.command@ == printable@,
                Err(message) => ended != 0 && message@ == (if output.len() == 0 {
                    "Command execution failed: "@ + printable@
                } else {
                    output
                }),
            }
        }),
{
    let mut all: Vec<String> = Vec::new();
    let mut i: usize = 0;
    while i < stdout.len()
        invariant
            i <= stdout@.len(),
            texts(all@) == texts(stdout@).take(i as int),
        decreases stdout@.len() - i,
    {
        let ghost before = texts(all@);
        all.push(stdout[i].clone());
        i += 1;
        proof {
            assert(texts(all@) =~= before.push(stdout@[i - 1]@));
            assert(texts(all@) =~= texts(stdout@).take(i as int));
        }
    }
    let mut k: usize = 0;
    proof {
        assert(texts(stdout@).take(i as int) =~= texts(stdout@));
        assert(texts(all@) =~= texts(stdout@) + texts(stderr@).take(0));
    }
    while k < stderr.len()
        invariant
            k <= stderr@.len(),
            texts(all@) == texts(stdout@) + texts(stderr@).take(k as int),
        decreases stderr@.len() - k,
    {
        let ghost before = texts(all@);
        all.push(stderr[k].clone());
        k += 1;
        proof {
            assert(texts(all@) =~= before.push(stderr@[k - 1]@));
            assert(texts(all@) =~= texts(stdout@) + texts(stderr@).take(k as int));
        }
    }
    proof {
        assert(texts(stderr@).take(k as int) =~= texts(stderr@));
    }
    let output: String = join_texts(&all, "\n");
    let ended: i32 = match code {
        Some(c) => c,
        None => 1,
    };
    let opening: &'static str = if ended == 0 {
        "Command completed: "
    } else {
        "Command failed: "
    };
    let message: String = owned(opening).concat(printable).concat(" (").concat(
        decimal_text(seconds).as_str(),
    ).concat(" seconds)");
    let level: &'static str = if ended == 0 {
        "success"
    } else {
        "error"
    };
    let result: Result<CommandResult, String> = if ended == 0 {
        Ok(CommandResult { code: ended, output, command: owned(printable) })
    } else if output.as_str().is_empty() {
        Err(owned("Command execution failed: ").concat(printable))
    } else {
        Err(output)
    };
    LoggedOutcome { level, message, result }
}

// ---------------------------------------------------------------------------------------------
// The directory of a deleted instance
// ---------------------------------------------------------------------------------------------
/// What is known of the directory of an instance that is deleted.
#[derive(Debug)]
pub struct WorkDirFacts {
    pub exists: bool,
    /// It is a link to another place.
    pub is_link: bool,
    pub is_dir: bool,
    /// Its path without links, and whether another directory holds it.
    pub canonical: String,
    pub has_parent: bool,
    /// The home directory of the user and the directory that the application runs in.
    pub home: Option<String>,
    pub current: Option<String>,
}

/// What stands against deleting the directory of an instance.
pub open spec fn removal_fault(facts: WorkDirFacts) -> Option<Seq<char>> {
    if facts.is_link {
        Some("Refusing to delete symlink instance working directory"@)
    } else if !facts.is_dir {
        Some("Instance working directory is not a directory"@)
    } else if !facts.has_parent {
        Some("Refusing to delete filesystem root"@)
    } else if opt_text(facts.home) == Some(facts.canonical@) {
        Some("Refusing to delete user home directory"@)
    } else if opt_text(facts.current) == Some(facts.canonical@) {
        Some("Refusing to delete AgentSeek Desktop current working directory"@)
    } else {
        None
    }
}

/// Decides on the directory of an instance that is deleted: nothing is done where it is gone, it is
/// deleted, or that is refused.
pub fn remove_instance_work_dir(facts: &WorkDirFacts) -> (r: Result<bool, String>)
    ensures
        match r {
            Ok(delete) => delete == facts.exists && (facts.exists ==> removal_fault(*facts) is None),
            Err(message) => facts.exists && removal_fault(*facts) == Some(message@),
        },
{
    if !facts.exists {
        return Ok(false);
    }
    if facts.is_link {
        return Err(owned("Refusing to delete symlink instance working directory"));
    }
    if !facts.is_dir {
        return Err(owned("Instance working directory is not a directory"));
    }
    if !facts.has_parent {
        return Err(owned("Refusing to delete filesystem root"));
    }
    match &facts.home {
        Some(home) => {
            if same(home.as_str(), facts.canonical.as_str()) {
                return Err(owned("Refusing to delete user home directory"));
            }
        },
        None => {},
    }
    match &facts.current {
        Some(current) => {
            if same(current.as_str(), facts.canonical.as_str()) {
                return Err(
                    owned("Refusing to delete AgentSeek Desktop current working directory"),
                );
            }
        },
        None => {},
    }
    Ok(true)
}

/// The home directory of the user, the directory that the application runs in and the root of the
/// file system are never deleted, nor is anything behind a link.
pub proof fn law_refused_directories_stay(facts: WorkDirFacts)
    requires
        facts.is_link || !facts.has_parent || opt_text(facts.home) == Some(facts.canonical@)
            || opt_text(facts.current) == Some(facts.canonical@),
    ensures
        removal_fault(facts) is Some,
{
}

// ---------------------------------------------------------------------------------------------
// Docker
// ---------------------------------------------------------------------------------------------
/// What of Docker is there.
#[derive(Debug, PartialEq, Eq, Structural, Clone, Copy)]
pub struct DockerStatus {
    pub cli_available: bool,
    pub compose_v2_available: bool,
    pub daemon_running: bool,
}

/// What of Docker is there, by whether its commands succeeded. Without the program nothing is.
pub fn check_docker(version: bool, compose: bool, info: bool) -> (status: DockerStatus)
    ensures
        status == (DockerStatus {
            cli_available: version,
            compose_v2_available: version && compose,
            daemon_running: version && info,
        }),
{
    DockerStatus {
        cli_available: version,
        compose_v2_available: version && compose,
        daemon_running: version && info,
    }
}

/// The names of compose files, in the order in which they are looked for.
pub open spec fn compose_names() -> Seq<Seq<char>> {
    seq!["docker-compose.yml"@, "docker-compose.yaml"@, "compose.yml"@, "compose.yaml"@]
}

/// The first name that a directory has a file of.
pub open spec fn first_present(names: Seq<Seq<char>>, files: Seq<Seq<char>>) -> Option<Seq<char>>
    decreases names.len(),
{
    if names.len() == 0 {
        None
    } else if files.contains(names[0]) {
        Some(names[0])
    } else {
        first_present(names.skip(1), files)
    }
}

/// The name of the compose file of a project. `files` holds the names of its files.
pub fn docker_compose_file(files: &Vec<String>) -> (r: Option<String>)
    ensures
        opt_text(r) == first_present(compose_names(), texts(files@)),
{
    proof {
        let n = compose_names();
        assert(n.skip(1) =~= seq!["docker-compose.yaml"@, "compose.yml"@, "compose.yaml"@]);
        assert(n.skip(1).skip(1) =~= seq!["compose.yml"@, "compose.yaml"@]);
        assert(n.skip(1).skip(1).skip(1) =~= seq!["compose.yaml"@]);
        assert(n.skip(1).skip(1).skip(1).skip(1) =~= Seq::<Seq<char>>::empty());
        reveal_with_fuel(first_present, 5);
    }
    if list_has(files, "docker-compose.yml") {
        return Some(owned("docker-compose.yml"));
    }
    if list_has(files, "docker-compose.yaml") {
        return Some(owned("docker-compose.yaml"));
    }
    if list_has(files, "compose.yml") {
        return Some(owned("compose.yml"));
    }
    if list_has(files, "compose.yaml") {
        return Some(owned("compose.yaml"));
    }
    None
}

/// What of Docker is missing.
pub open spec fn missing_parts(status: DockerStatus) -> Seq<Seq<char>> {
    (if status.cli_available {
        seq![]
    } else {
        seq!["Docker CLI not installed"@]
    }) + (if status.compose_v2_available {
        seq![]
    } else {
        seq!["Docker Compose V2 not installed"@]
    }) + (if status.daemon_running {
        seq![]
    } else {
        seq!["Docker not started"@]
    })
}

/// What is said where a project needs Docker and a part of it is missing.
pub open spec fn docker_warning(file: Option<Seq<char>>, status: DockerStatus) -> Option<Seq<char>> {
    match file {
        None => None,
        Some(name) => if missing_parts(status).len() == 0 {
            None
        } else {
            Some(
                "Project contains "@ + name + ", but"@ + join(missing_parts(status), "\u{3001}"@)
                    + ". Please install and start Docker before continuing."@,
            )
        },
    }
}

/// Checks that a project that has a compose file finds Docker. Another needs none.
pub fn docker_compose_check(compose_file: Option<String>, status: DockerStatus) -> (r: Option<
    String,
>)
    ensures
        opt_text(r) == docker_warning(opt_text(compose_file), status),
{
    match compose_file {
        None => None,
        Some(name) => {
            let mut missing: Vec<String> = Vec::new();
            if !status.cli_available {
                missing.push(owned("Docker CLI not installed"));
            }
            if !status.compose_v2_available {
                missing.push(owned("Docker Compose V2 not installed"));
            }
            if !status.daemon_running {
                missing.push(owned("Docker not started"));
            }
            proof {
                assert(texts(missing@) =~= missing_parts(status));
                assert(texts(missing@).len() == missing@.len());
            }
            if missing.len() == 0 {
                return None;
            }
            Some(
                owned("Project contains ").concat(name.as_str()).concat(", but").concat(
                    join_texts(&missing, "\u{3001}").as_str(),
                ).concat(". Please install and start Docker before continuing."),
            )
        },
    }
}

// ---------------------------------------------------------------------------------------------
// Looking for a file
// ---------------------------------------------------------------------------------------------
/// An entry of a directory that is still to be looked at.
#[derive(Debug)]
pub struct PendingEntry {
    pub path: String,
    pub name: Option<String>,
    pub is_file: bool,
    pub is_dir: bool,
    /// How many directories deep the search may still go below it.
    pub depth: usize,
}

/// The next thing to do in a search.
#[derive(Debug)]
pub enum SearchStep {
    Found(String),
    /// The entries of this directory come next, with the depth that is left for them.
    Read(String, usize),
    NotFound,
}

/// The entry is the file that is looked for.
pub open spec fn is_wanted(entry: PendingEntry, filename: Seq<char>) -> bool {
    entry.is_file && opt_text(entry.name) == Some(filename)
}

/// The entry is a directory that is looked into.
pub open spec fn is_entered(entry: PendingEntry) -> bool {
    entry.is_dir && entry.depth > 0
}

/// The first entry, from one on, that ends the search or is a directory to look into.
pub open spec fn next_of_interest(entries: Seq<PendingEntry>, filename: Seq<char>, i: int) -> int
    decreases entries.len() - i,
{
    if i < 0 || i >= entries.len() || is_wanted(entries[i], filename) || is_entered(entries[i]) {
        i
    } else {
        next_of_interest(entries, filename, i + 1)
    }
}

/// Looks through the entries that are at hand for a file: up to the file, or to a directory whose
/// entries come before all others.
pub fn find_file_recursive(entries: &Vec<PendingEntry>, filename: &str) -> (r: (SearchStep, usize))
    ensures
        ({
            let k = next_of_interest(entries@, filename@, 0);
            match r.0 {
                SearchStep::Found(path) => k < entries@.len() && is_wanted(entries@[k], filename@)
                    && path@ == entries@[k].path@ && r.1 == k + 1,
                SearchStep::Read(path, depth) => k < entries@.len() && !is_wanted(
                    entries@[k],
                    filename@,
                ) && is_entered(entries@[k]) && path@ == entries@[k].path@ && depth
                    == entries@[k].depth - 1 && r.1 == k + 1,
                SearchStep::NotFound => k >= entries@.len() && r.1 == entries@.len(),
            }
        }),
{
    let mut i: usize = 0;
    while i < entries.len()
        invariant
            i <= entries@.len(),
            next_of_interest(entries@, filename@, 0) == next_of_interest(
                entries@,
                filename@,
                i as int,
            ),
        decreases entries@.len() - i,
    {
        let entry: &PendingEntry = &entries[i];
        let named: bool = match &entry.name {
            Some(name) => same(name.as_str(), filename),
            None => false,
        };
        if entry.is_file && named {
            return (SearchStep::Found(entry.path.clone()), i + 1);
        }
        if entry.is_dir && entry.depth > 0 {
            return (SearchStep::Read(entry.path.clone(), entry.depth - 1), i + 1);
        }
        i += 1;
    }
    (SearchStep::NotFound, i)
}

/// The file that a search finds: the first one of the name, where the entries of a directory come
/// right behind the directory. `listing` says what the entries of a directory are, and `limit` is
/// a bound on the depths.
pub open spec fn file_below(
    entries: Seq<PendingEntry>,
    filename: Seq<char>,
    listing: spec_fn(Seq<char>, nat) -> Seq<PendingEntry>,
    limit: nat,
) -> Option<Seq<char>>
    decreases limit, entries.len(),
{
    if entries.len() == 0 {
        None
    } else if is_wanted(entries[0], filename) {
        Some(entries[0].path@)
    } else if is_entered(entries[0]) && limit > 0 {
        match file_below(
            listing(entries[0].path@, (entries[0].depth - 1) as nat),
            filename,
            listing,
            (limit - 1) as nat,
        ) {
            Some(path) => Some(path),
            None => file_below(entries.skip(1), filename, listing, limit),
        }
    } else {
        file_below(entries.skip(1), filename, listing, limit)
    }
}

/// The search goes at most `limit` directories below the entries.
pub open spec fn within_depth(entries: Seq<PendingEntry>, limit: nat) -> bool {
    forall|i: int| 0 <= i < entries.len() ==> (#[trigger] entries[i]).depth <= limit
}

/// The entries of a directory come with the depth that is left for them.
pub open spec fn lists_by_depth(listing: spec_fn(Seq<char>, nat) -> Seq<PendingEntry>) -> bool {
    forall|path: Seq<char>, depth: nat| within_depth(#[trigger] listing(path, depth), depth)
}

proof fn lemma_file_in_parts(
    a: Seq<PendingEntry>,
    b: Seq<PendingEntry>,
    filename: Seq<char>,
    listing: spec_fn(Seq<char>, nat) -> Seq<PendingEntry>,
    limit: nat,
)
    ensures
        file_below(a + b, filename, listing, limit) == (match file_below(
            a,
            filename,
            listing,
            limit,
        ) {
            Some(path) => Some(path),
            None => file_below(b, filename, listing, limit),
        }),
    decreases a.len(),
{
    if a.len() == 0 {
        assert(a + b =~= b);
    } else {
        assert((a + b)[0] == a[0]);
        assert((a + b).skip(1) =~= a.skip(1) + b);
        lemma_file_in_parts(a.skip(1), b, filename, listing, limit);
    }
}

proof fn lemma_limit_is_a_bound(
    entries: Seq<PendingEntry>,
    filename: Seq<char>,
    listing: spec_fn(Seq<char>, nat) -> Seq<PendingEntry>,
    limit: nat,
)
    requires
        lists_by_depth(listing),
        within_depth(entries, limit),
    ensures
        file_below(entries, filename, listing, limit) == file_below(
            entries,
            filename,
            listing,
            limit + 1,
        ),
    decreases limit, entries.len(),
{
    if entries.len() > 0 {
        let first = entries[0];
        let rest = entries.skip(1);
        assert forall|i: int| 0 <= i < rest.len() implies (#[trigger] rest[i]).depth <= limit by {
            assert(rest[i] == entries[i + 1]);
        }
        lemma_limit_is_a_bound(rest, filename, listing, limit);
        if !is_wanted(first, filename) && is_entered(first) {
            let below = listing(first.path@, (first.depth - 1) as nat);
            assert(within_depth(below, (first.depth - 1) as nat));
            assert(within_depth(below, (limit - 1) as nat));
            lemma_limit_is_a_bound(below, filename, listing, (limit - 1) as nat);
        }
    }
}

proof fn lemma_skipped_entries(
    entries: Seq<PendingEntry>,
    filename: Seq<char>,
    listing: spec_fn(Seq<char>, nat) -> Seq<PendingEntry>,
    limit: nat,
    i: int,
)
    requires
        0 <= i <= entries.len(),
    ensures
        ({
            let k = next_of_interest(entries, filename, i);
            i <= k <= entries.len() && file_below(entries.skip(i), filename, listing, limit)
                == file_below(entries.skip(k), filename, listing, limit) && (k < entries.len()
                ==> is_wanted(entries[k], filename) || is_entered(entries[k]))
        }),
    decreases entries.len() - i,
{
    if i < entries.len() && !is_wanted(entries[i], filename) && !is_entered(entries[i]) {
        lemma_skipped_entries(entries, filename, listing, limit, i + 1);
        assert(entries.skip(i)[0] == entries[i]);
        assert(entries.skip(i).skip(1) =~= entries.skip(i + 1));
    }
}

/// A search that looks through the entries at hand, and goes on with the entries of the directory
/// that it is told to read before all others, finds the first file of the name, or none where there
/// is none.
pub proof fn law_search_finds_the_first_file(
    entries: Seq<PendingEntry>,
    filename: Seq<char>,
    listing: spec_fn(Seq<char>, nat) -> Seq<PendingEntry>,
    limit: nat,
)
    requires
        lists_by_depth(listing),
        within_depth(entries, limit),
    ensures
        ({
            let k = next_of_interest(entries, filename, 0);
            let whole = file_below(entries, filename, listing, limit);
            if k >= entries.len() {
                whole is None
            } else if is_wanted(entries[k], filename) {
                whole == Some(entries[k].path@)
            } else {
                let below = listing(entries[k].path@, (entries[k].depth - 1) as nat);
                &&& whole == file_below(below + entries.skip(k + 1), filename, listing, limit)
                &&& within_depth(below + entries.skip(k + 1), limit)
            }
        }),
{
    lemma_skipped_entries(entries, filename, listing, limit, 0);
    assert(entries.skip(0) =~= entries);
    let k = next_of_interest(entries, filename, 0);
    if k >= entries.len() {
        assert(entries.skip(k) =~= Seq::<PendingEntry>::empty());
    } else {
        let from = entries.skip(k);
        assert(from[0] == entries[k]);
        assert(from.skip(1) =~= entries.skip(k + 1));
        if !is_wanted(entries[k], filename) {
            let depth = (entries[k].depth - 1) as nat;
            let below = listing(entries[k].path@, depth);
            let rest = entries.skip(k + 1);
            assert(within_depth(below, depth));
            assert(entries[k].depth <= limit);
            assert(within_depth(below, (limit - 1) as nat));
            lemma_limit_is_a_bound(below, filename, listing, (limit - 1) as nat);
            lemma_file_in_parts(below, rest, filename, listing, limit);
            let next = below + rest;
            assert forall|i: int| 0 <= i < next.len() implies (#[trigger] next[i]).depth
                <= limit by {
                if i < below.len() {
                    assert(next[i] == below[i]);
                } else {
                    assert(next[i] == entries[k + 1 + i - below.len()]);
                }
            }
        }
    }
}

} // verus!
