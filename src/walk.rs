use vstd::prelude::*;

use crate::obj_ident::ObjectIdentifier;
use crate::pdu::binds_view;
use crate::var_bind::{BindValue, BindView, VarBind};

verus! {

/// `a` comes before `b` in lexicographic order of arcs: at the first
/// position where they differ `a` is smaller, or `a` is a proper prefix.
pub open spec fn oid_lt(a: Seq<u32>, b: Seq<u32>) -> bool {
    exists|i: int|
        #![trigger a.take(i), b.take(i)]
        0 <= i <= a.len() && i <= b.len() && a.take(i) == b.take(i) && ((i == a.len() && i
            < b.len()) || (i < a.len() && i < b.len() && a[i] < b[i]))
}

/// `x` lies strictly below `root` in the tree of identifiers.
pub open spec fn is_strict_descendant(root: Seq<u32>, x: Seq<u32>) -> bool {
    x.len() > root.len() && x.take(root.len() as int) == root
}

/// Compares two identifiers in lexicographic order of arcs.
pub fn oid_less(a: &ObjectIdentifier, b: &ObjectIdentifier) -> (r: bool)
    ensures
        r == oid_lt(a@, b@),
{
    let na = a.length();
    let nb = b.length();
    let mut i: usize = 0;
    while i < na && i < nb && a.arc(i) == b.arc(i)
        invariant
            i <= na == a@.len(),
            i <= nb == b@.len(),
            a@.take(i as int) == b@.take(i as int),
        decreases na - i,
    {
        assert(a@.take(i + 1) =~= a@.take(i as int).push(a@[i as int]));
        assert(b@.take(i + 1) =~= b@.take(i as int).push(b@[i as int]));
        i = i + 1;
    }
    let r = if i == na {
        i < nb
    } else if i == nb {
        false
    } else {
        a.arc(i) < b.arc(i)
    };
    proof {
        if r {
            assert(a@.take(i as int) == b@.take(i as int));
        } else {
            assert forall|j: int| 0 <= j <= a@.len() && j <= b@.len() && a@.take(j) == b@.take(j)
                implies !((j == a@.len() && j < b@.len()) || (j < a@.len() && j < b@.len() && a@[j]
                < b@[j])) by {
                if j < i {
                    assert(a@.take(i as int)[j] == b@.take(i as int)[j]);
                } else if j > i {
                    assert(a@.take(j)[i as int] == b@.take(j)[i as int]);
                }
            }
        }
    }
    r
}

/// Whether `x` lies strictly below `root`.
pub fn in_subtree(root: &ObjectIdentifier, x: &ObjectIdentifier) -> (r: bool)
    ensures
        r == is_strict_descendant(root@, x@),
{
    let n = root.length();
    if x.length() <= n {
        return false;
    }
    let mut i: usize = 0;
    while i < n
        invariant
            i <= n == root@.len() < x@.len(),
            x@.take(i as int) == root@.take(i as int),
        decreases n - i,
    {
        if root.arc(i) != x.arc(i) {
            assert(x@.take(n as int)[i as int] != root@[i as int]);
            return false;
        }
        assert(x@.take(i + 1) =~= x@.take(i as int).push(x@[i as int]));
        assert(root@.take(i + 1) =~= root@.take(i as int).push(root@[i as int]));
        i = i + 1;
    }
    assert(root@.take(n as int) =~= root@);
    true
}

/// What a walk does after a reply.
#[derive(Clone, Copy, Debug, PartialEq, Eq, Structural)]
pub enum WalkStep {
    /// The binding was kept; ask for the next one after the new cursor.
    Continue,
    /// The subtree, or the agent's view, is exhausted.
    Done,
    /// The agent answered with an identifier not after the cursor.
    NonIncreasing,
}

pub struct WalkView {
    pub root: Seq<u32>,
    pub cursor: Seq<u32>,
    pub results: Seq<(Seq<u32>, BindView)>,
    pub finished: bool,
}

/// A walk's state: the bindings found so far are all below the root, in
/// strictly increasing order, and the cursor is the last of them (the root
/// before the first).
pub open spec fn walk_wf(w: WalkView) -> bool {
    &&& forall|i: int|
        0 <= i < w.results.len() ==> is_strict_descendant(w.root, #[trigger] w.results[i].0)
    &&& forall|i: int, j: int|
        0 <= i < j < w.results.len() ==> oid_lt(#[trigger] w.results[i].0, #[trigger] w.results[j].0)
    &&& w.cursor == (if w.results.len() == 0 {
        w.root
    } else {
        w.results.last().0
    })
}

/// The traversal of a subtree by repeated get-next requests.
pub struct Walk {
    root: ObjectIdentifier,
    cursor: ObjectIdentifier,
    results: Vec<VarBind>,
    finished: bool,
}

impl View for Walk {
    type V = WalkView;

    closed spec fn view(&self) -> WalkView {
        WalkView {
            root: self.root@,
            cursor: self.cursor@,
            results: binds_view(self.results@),
            finished: self.finished,
        }
    }
}

proof fn lemma_oid_lt_trans(a: Seq<u32>, b: Seq<u32>, c: Seq<u32>)
    requires
        oid_lt(a, b),
        oid_lt(b, c),
    ensures
        oid_lt(a, c),
{
    let i = choose|i: int|
        #![trigger a.take(i), b.take(i)]
        0 <= i <= a.len() && i <= b.len() && a.take(i) == b.take(i) && ((i == a.len() && i
            < b.len()) || (i < a.len() && i < b.len() && a[i] < b[i]));
    let j = choose|j: int|
        #![trigger b.take(j), c.take(j)]
        0 <= j <= b.len() && j <= c.len() && b.take(j) == c.take(j) && ((j == b.len() && j
            < c.len()) || (j < b.len() && j < c.len() && b[j] < c[j]));
    let k = if i < j {
        i
    } else {
        j
    };
    assert(a.take(k) =~= c.take(k)) by {
        assert forall|t: int| 0 <= t < k implies a.take(k)[t] == c.take(k)[t] by {
            assert(a.take(i)[t] == b.take(i)[t]);
            assert(b.take(j)[t] == c.take(j)[t]);
        }
    }
    if i < j {
        if i < a.len() {
            assert(b.take(j)[i] == c.take(j)[i]);
        }
    } else if j < i {
        assert(a.take(i)[j] == b.take(i)[j]);
    }
}

proof fn lemma_oid_lt_irreflexive(a: Seq<u32>)
    ensures
        !oid_lt(a, a),
{
}

/// The names a walk has found so far.
pub open spec fn result_names(w: WalkView) -> Seq<Seq<u32>> {
    w.results.map_values(|r: (Seq<u32>, BindView)| r.0)
}

/// A walk finds each name at most once: its results are in strictly
/// increasing order, so no two share a name. Against an agent whose
/// answers all come from a finite set of names, a walk can thus keep no
/// more results than that set holds, and ends after at most that many
/// steps that continue.
pub proof fn lemma_walk_results_distinct(w: WalkView, names: Set<Seq<u32>>)
    requires
        walk_wf(w),
        names.finite(),
        forall|i: int| 0 <= i < w.results.len() ==> names.contains(#[trigger] w.results[i].0),
    ensures
        result_names(w).no_duplicates(),
        w.results.len() <= names.len(),
{
    let ns = result_names(w);
    assert forall|i: int, j: int| 0 <= i < ns.len() && 0 <= j < ns.len() && i != j implies ns[i]
        != ns[j] by {
        if i < j {
            assert(oid_lt(w.results[i].0, w.results[j].0));
            lemma_oid_lt_irreflexive(w.results[i].0);
        } else {
            assert(oid_lt(w.results[j].0, w.results[i].0));
            lemma_oid_lt_irreflexive(w.results[j].0);
        }
    }
    ns.unique_seq_to_set();
    assert(ns.to_set().subset_of(names)) by {
        assert forall|x: Seq<u32>| ns.to_set().contains(x) implies names.contains(x) by {
            let k = choose|k: int| 0 <= k < ns.len() && ns[k] == x;
            assert(names.contains(w.results[k].0));
        }
    }
    vstd::set_lib::lemma_len_subset(ns.to_set(), names);
}

impl Walk {
    pub fn new(root: ObjectIdentifier) -> (r: Walk)
        ensures
            walk_wf(r@),
            r@.root == root@,
            r@.results.len() == 0,
            !r@.finished,
    {
        let cursor = root.clone();
        let r = Walk { root, cursor, results: Vec::new(), finished: false };
        assert(r@.results =~= seq![]);
        r
    }

    /// The identifier to ask the next one after.
    pub fn cursor(&self) -> (r: &ObjectIdentifier)
        ensures
            r@ == self@.cursor,
    {
        &self.cursor
    }

    pub fn is_finished(&self) -> (r: bool)
        ensures
            r == self@.finished,
    {
        self.finished
    }

    /// The bindings found so far.
    pub fn results(&self) -> (r: &Vec<VarBind>)
        ensures
            binds_view(r@) == self@.results,
    {
        &self.results
    }

    /// Takes in the agent's answer to a get-next for the cursor.
    pub fn on_reply(&mut self, reply: VarBind) -> (r: WalkStep)
        requires
            walk_wf(old(self)@),
            !old(self)@.finished,
        ensures
            walk_wf(final(self)@),
            final(self)@.root == old(self)@.root,
            r == WalkStep::Continue <==> (reply@.1 != BindView::EndOfMibView && oid_lt(
                old(self)@.cursor,
                reply@.0,
            ) && is_strict_descendant(old(self)@.root, reply@.0)),
            r == WalkStep::NonIncreasing <==> (reply@.1 != BindView::EndOfMibView && !oid_lt(
                old(self)@.cursor,
                reply@.0,
            )),
            r == WalkStep::Continue ==> final(self)@.results == old(self)@.results.push(reply@)
                && !final(self)@.finished,
            r != WalkStep::Continue ==> final(self)@.results == old(self)@.results
                && final(self)@.finished,
    {
        let end = match reply.value() {
            BindValue::EndOfMibView => true,
            _ => false,
        };
        if end {
            self.finished = true;
            return WalkStep::Done;
        }
        if !oid_less(&self.cursor, reply.name()) {
            self.finished = true;
            return WalkStep::NonIncreasing;
        }
        if !in_subtree(&self.root, reply.name()) {
            self.finished = true;
            return WalkStep::Done;
        }
        let ghost old_results = self@.results;
        let ghost old_cursor = self@.cursor;
        self.cursor = reply.name().clone();
        self.results.push(reply);
        proof {
            let rs = self@.results;
            assert(rs =~= old_results.push(reply@));
            assert forall|i: int, j: int| 0 <= i < j < rs.len() implies oid_lt(
                #[trigger] rs[i].0,
                #[trigger] rs[j].0,
            ) by {
                if j == rs.len() - 1 && i < j {
                    if i < old_results.len() - 1 {
                        lemma_oid_lt_trans(rs[i].0, old_results.last().0, reply@.0);
                    }
                }
            }
        }
        WalkStep::Continue
    }
}

} // verus!
