//! A structural diff of two trees: where two subtrees differ, the smallest
//! subtrees that differ are replaced, and text that both share is kept.

use vstd::prelude::*;
use crate::edit::{atoms_view, disjoint, ranges_wf, replaced, splice, AtomTextEdit, AtomView, TextEdit};
use crate::syntax::SyntaxTree;

verus! {

/// Where child `k` of `i` starts.
pub open spec fn child_start(tree: &SyntaxTree, i: int, k: int) -> int {
    tree.elements@[tree.elements@[i].children@[k] as int].range.start as int
}

/// Where the first `k` children of `i` end.
pub open spec fn child_end(tree: &SyntaxTree, i: int, k: int) -> int {
    if k <= 0 {
        tree.elements@[i].range.start as int
    } else {
        tree.elements@[tree.elements@[i].children@[k - 1] as int].range.end as int
    }
}

/// At element `i`: the children cover the range of the parent, one after
/// another, with no gap.
pub open spec fn node_nested(tree: &SyntaxTree, i: int) -> bool {
    let e = tree.elements@[i];
    let ch = e.children@;
    &&& forall|k: int| 0 <= k < ch.len() ==> #[trigger] child_start(tree, i, k) == child_end(tree, i, k)
    &&& ch.len() > 0 ==> child_end(tree, i, ch.len() as int) == e.range.end
}

/// `node_nested` holds at every element.
pub open spec fn nested(tree: &SyntaxTree) -> bool {
    forall|i: int| 0 <= i < tree.elements@.len() ==> #[trigger] node_nested(tree, i)
}

/// Two elements of one kind that cover the same text.
pub open spec fn alike(from: &SyntaxTree, a: int, to: &SyntaxTree, b: int) -> bool {
    from.elements@[a].kind == to.elements@[b].kind && from.text_of(a) == to.text_of(b)
}

/// The atoms that turn element `a` of `from` into element `b` of `to`: none
/// where the two are alike; those of the children, pair by pair, where both
/// have the same number of children; else one atom that replaces `a` by the
/// text of `b`.
pub open spec fn diff_atoms(from: &SyntaxTree, a: int, to: &SyntaxTree, b: int) -> Seq<AtomView>
    decreases from.elements@.len() - a, from.elements@[a].children@.len() + 1,
{
    let n = from.elements@[a].children@.len();
    if alike(from, a, to, b) {
        Seq::<AtomView>::empty()
    } else if n > 0 && n == to.elements@[b].children@.len() {
        diff_children(from, a, to, b, n as int)
    } else {
        seq![(AtomView { delete: from.elements@[a].range, insert: to.text_of(b) })]
    }
}

/// The atoms for the first `k` pairs of children of `a` and `b`.
pub open spec fn diff_children(from: &SyntaxTree, a: int, to: &SyntaxTree, b: int, k: int) -> Seq<AtomView>
    decreases from.elements@.len() - a, k,
{
    if k <= 0 || k > from.elements@[a].children@.len() {
        Seq::<AtomView>::empty()
    } else {
        let ca = from.elements@[a].children@[k - 1] as int;
        let cb = to.elements@[b].children@[k - 1] as int;
        diff_children(from, a, to, b, k - 1) + (if a < ca < from.elements@.len() {
            diff_atoms(from, ca, to, cb)
        } else {
            Seq::<AtomView>::empty()
        })
    }
}

/// The atoms ascend without overlap and lie between `lo` and `hi`.
pub open spec fn bounded(atoms: Seq<AtomView>, lo: int, hi: int) -> bool {
    &&& lo <= hi
    &&& disjoint(atoms)
    &&& forall|i: int|
        0 <= i < atoms.len() ==> lo <= (#[trigger] atoms[i]).delete.start <= atoms[i].delete.end <= hi
}

/// What replaying `atoms` makes of the bytes of `text` between `from` and
/// `to`.
pub open spec fn patch(text: Seq<u8>, atoms: Seq<AtomView>, from: int, to: int) -> Seq<u8>
    decreases atoms.len(),
{
    if atoms.len() == 0 {
        text.subrange(from, to)
    } else {
        text.subrange(from, atoms[0].delete.start as int) + atoms[0].insert + patch(
            text,
            atoms.drop_first(),
            atoms[0].delete.end as int,
            to,
        )
    }
}

/// Replaying over the whole text is patching up to its end.
pub proof fn lemma_splice_is_patch(text: Seq<u8>, atoms: Seq<AtomView>, from: int)
    ensures
        splice(text, atoms, from) == patch(text, atoms, from, text.len() as int),
    decreases atoms.len(),
{
    if atoms.len() > 0 {
        lemma_splice_is_patch(text, atoms.drop_first(), atoms[0].delete.end as int);
    }
}

/// Atoms before `mid` and atoms behind it patch their own parts of the text.
pub proof fn lemma_patch_concat(text: Seq<u8>, first: Seq<AtomView>, second: Seq<AtomView>, lo: int, mid: int, hi: int)
    requires
        0 <= lo,
        hi <= text.len(),
        bounded(first, lo, mid),
        bounded(second, mid, hi),
    ensures
        bounded(first + second, lo, hi),
        patch(text, first + second, lo, hi) == patch(text, first, lo, mid) + patch(text, second, mid, hi),
    decreases first.len(),
{
    let all = first + second;
    assert forall|i: int, j: int| 0 <= i < j < all.len() implies (#[trigger] all[i]).delete.end <= (
    #[trigger] all[j]).delete.start by {
        if i < first.len() && j >= first.len() {
            assert(all[i] == first[i]);
            assert(all[j] == second[j - first.len()]);
        } else if j < first.len() {
            assert(all[i] == first[i]);
            assert(all[j] == first[j]);
        } else {
            assert(all[i] == second[i - first.len()]);
            assert(all[j] == second[j - first.len()]);
        }
    }
    assert forall|i: int| 0 <= i < all.len() implies lo <= (#[trigger] all[i]).delete.start
        <= all[i].delete.end <= hi by {
        if i < first.len() {
            assert(all[i] == first[i]);
        } else {
            assert(all[i] == second[i - first.len()]);
        }
    }
    if first.len() == 0 {
        assert(all =~= second);
        if second.len() == 0 {
            assert(text.subrange(lo, hi) =~= text.subrange(lo, mid) + text.subrange(mid, hi));
        } else {
            let s = second[0].delete.start as int;
            assert(text.subrange(lo, s) =~= text.subrange(lo, mid) + text.subrange(mid, s));
            assert(patch(text, all, lo, hi) =~= patch(text, first, lo, mid) + patch(text, second, mid, hi));
        }
    } else {
        let e = first[0].delete.end as int;
        assert(all[0] == first[0]);
        assert(all.drop_first() =~= first.drop_first() + second);
        assert(bounded(first.drop_first(), e, mid)) by {
            let rest = first.drop_first();
            assert forall|i: int| 0 <= i < rest.len() implies e <= (#[trigger] rest[i]).delete.start
                <= rest[i].delete.end <= mid by {
                assert(rest[i] == first[i + 1]);
                assert(first[0].delete.end <= first[i + 1].delete.start);
            }
            assert forall|i: int, j: int| 0 <= i < j < rest.len() implies (
            #[trigger] rest[i]).delete.end <= (#[trigger] rest[j]).delete.start by {
                assert(rest[i] == first[i + 1]);
                assert(rest[j] == first[j + 1]);
            }
            assert(first[0].delete.end <= mid);
        }
        lemma_patch_concat(text, first.drop_first(), second, e, mid, hi);
        assert(patch(text, all, lo, hi) =~= patch(text, first, lo, mid) + patch(text, second, mid, hi));
    }
}

/// The atoms of a diff lie inside the element they are for, and patching
/// that element's text with them gives the text of the other element.
pub proof fn lemma_diff_patches(from: &SyntaxTree, a: int, to: &SyntaxTree, b: int)
    requires
        from.wf(),
        to.wf(),
        nested(from),
        nested(to),
        0 <= a < from.elements@.len(),
        0 <= b < to.elements@.len(),
    ensures
        bounded(
            diff_atoms(from, a, to, b),
            from.elements@[a].range.start as int,
            from.elements@[a].range.end as int,
        ),
        patch(
            from.text@,
            diff_atoms(from, a, to, b),
            from.elements@[a].range.start as int,
            from.elements@[a].range.end as int,
        ) == to.text_of(b),
    decreases from.elements@.len() - a, from.elements@[a].children@.len() + 1,
{
    let n = from.elements@[a].children@.len();
    let ra = from.elements@[a].range;
    assert(ra.within(from.text@.len() as int));
    if alike(from, a, to, b) {
    } else if n > 0 && n == to.elements@[b].children@.len() {
        lemma_diff_children_patch(from, a, to, b, n as int);
        assert(node_nested(from, a));
        assert(node_nested(to, b));
    } else {
        let atoms = diff_atoms(from, a, to, b);
        assert(atoms.len() == 1);
        assert(atoms[0].delete == ra);
        assert(atoms[0].insert == to.text_of(b));
        assert(atoms.drop_first().len() == 0);
        assert(patch(from.text@, atoms.drop_first(), ra.end as int, ra.end as int) =~= Seq::<u8>::empty());
        assert(from.text@.subrange(ra.start as int, ra.start as int) =~= Seq::<u8>::empty());
        assert(patch(from.text@, atoms, ra.start as int, ra.end as int) =~= to.text_of(b));
    }
}

/// The same for the first `k` pairs of children.
pub proof fn lemma_diff_children_patch(from: &SyntaxTree, a: int, to: &SyntaxTree, b: int, k: int)
    requires
        from.wf(),
        to.wf(),
        nested(from),
        nested(to),
        0 <= a < from.elements@.len(),
        0 <= b < to.elements@.len(),
        from.elements@[a].children@.len() == to.elements@[b].children@.len(),
        0 <= k <= from.elements@[a].children@.len(),
    ensures
        from.elements@[a].range.start <= child_end(from, a, k) <= from.text@.len(),
        to.elements@[b].range.start <= child_end(to, b, k) <= to.text@.len(),
        bounded(diff_children(from, a, to, b, k), from.elements@[a].range.start as int, child_end(from, a, k)),
        patch(
            from.text@,
            diff_children(from, a, to, b, k),
            from.elements@[a].range.start as int,
            child_end(from, a, k),
        ) == to.text@.subrange(to.elements@[b].range.start as int, child_end(to, b, k)),
    decreases from.elements@.len() - a, k,
{
    let lo = from.elements@[a].range.start as int;
    assert(from.elements@[a].range.within(from.text@.len() as int));
    assert(to.elements@[b].range.within(to.text@.len() as int));
    assert(node_nested(from, a));
    assert(node_nested(to, b));
    if k == 0 {
        assert(patch(from.text@, diff_children(from, a, to, b, k), lo, lo) =~= to.text@.subrange(
            to.elements@[b].range.start as int,
            to.elements@[b].range.start as int,
        ));
    } else {
        let ca = from.elements@[a].children@[k - 1];
        let cb = to.elements@[b].children@[k - 1];
        assert(a < ca < from.elements@.len());
        assert(cb < to.elements@.len());
        assert(from.elements@[ca as int].range.within(from.text@.len() as int));
        assert(to.elements@[cb as int].range.within(to.text@.len() as int));
        lemma_diff_children_patch(from, a, to, b, k - 1);
        lemma_diff_patches(from, ca as int, to, cb as int);
        let mid = child_end(from, a, k - 1);
        let tmid = child_end(to, b, k - 1);
        assert(mid == from.elements@[ca as int].range.start) by {
            assert(child_start(from, a, k - 1) == child_end(from, a, k - 1));
        }
        assert(tmid == to.elements@[cb as int].range.start) by {
            assert(child_start(to, b, k - 1) == child_end(to, b, k - 1));
        }
        lemma_patch_concat(
            from.text@,
            diff_children(from, a, to, b, k - 1),
            diff_atoms(from, ca as int, to, cb as int),
            lo,
            mid,
            child_end(from, a, k),
        );
        assert(to.text@.subrange(to.elements@[b].range.start as int, tmid) + to.text_of(cb as int)
            =~= to.text@.subrange(to.elements@[b].range.start as int, child_end(to, b, k)));
    }
}

/// Applying the atoms of a diff to the whole text puts the text of `b` in
/// the place of `a` and keeps every byte outside `a`.
pub proof fn lemma_diff_replaces(from: &SyntaxTree, a: int, to: &SyntaxTree, b: int)
    requires
        from.wf(),
        to.wf(),
        nested(from),
        nested(to),
        0 <= a < from.elements@.len(),
        0 <= b < to.elements@.len(),
    ensures
        ranges_wf(diff_atoms(from, a, to, b)),
        disjoint(diff_atoms(from, a, to, b)),
        forall|i: int|
            0 <= i < diff_atoms(from, a, to, b).len() ==> (#[trigger] diff_atoms(
                from,
                a,
                to,
                b,
            )[i]).delete.end <= from.text@.len(),
        splice(from.text@, diff_atoms(from, a, to, b), 0) == replaced(
            from.text@,
            from.elements@[a].range,
            to.text_of(b),
        ),
{
    let atoms = diff_atoms(from, a, to, b);
    let text = from.text@;
    let lo = from.elements@[a].range.start as int;
    let hi = from.elements@[a].range.end as int;
    let none = Seq::<AtomView>::empty();
    assert(from.elements@[a].range.within(text.len() as int));
    lemma_diff_patches(from, a, to, b);
    lemma_patch_concat(text, none, atoms, 0, lo, hi);
    assert(none + atoms =~= atoms);
    lemma_patch_concat(text, atoms, none, 0, hi, text.len() as int);
    assert(atoms + none =~= atoms);
    lemma_splice_is_patch(text, atoms, 0);
    assert(splice(text, atoms, 0) =~= replaced(text, from.elements@[a].range, to.text_of(b)));
}

/// Tests `nested`.
pub fn is_nested(tree: &SyntaxTree) -> (ok: bool)
    requires
        tree.wf(),
    ensures
        ok == nested(tree),
{
    let n: usize = tree.elements.len();
    let mut i: usize = 0;
    while i < n
        invariant
            tree.wf(),
            n == tree.elements@.len(),
            0 <= i <= n,
            forall|j: int| 0 <= j < i ==> #[trigger] node_nested(tree, j),
        decreases n - i,
    {
        let e = &tree.elements[i];
        let m: usize = e.children.len();
        let mut reached: u32 = e.range.start;
        let mut k: usize = 0;
        while k < m
            invariant
                tree.wf(),
                i < n,
                n == tree.elements@.len(),
                e == &tree.elements[i as int],
                m == e.children@.len(),
                0 <= k <= m,
                reached == child_end(tree, i as int, k as int),
                forall|j: int|
                    0 <= j < k ==> #[trigger] child_start(tree, i as int, j) == child_end(tree, i as int, j),
            decreases m - k,
        {
            let c: usize = e.children[k];
            assert(tree.elements@[i as int].children@[k as int] < n);
            if tree.elements[c].range.start != reached {
                assert(child_start(tree, i as int, k as int) != child_end(tree, i as int, k as int));
                assert(!node_nested(tree, i as int));
                return false;
            }
            reached = tree.elements[c].range.end;
            k += 1;
        }
        if m > 0 && reached != e.range.end {
            assert(!node_nested(tree, i as int));
            return false;
        }
        assert(node_nested(tree, i as int));
        i += 1;
    }
    true
}

/// Whether two elements are of one kind and cover the same text.
pub fn is_alike(from: &SyntaxTree, a: usize, to: &SyntaxTree, b: usize) -> (r: bool)
    requires
        from.wf(),
        to.wf(),
        a < from.elements@.len(),
        b < to.elements@.len(),
    ensures
        r == alike(from, a as int, to, b as int),
{
    let ra = from.elements[a].range;
    let rb = to.elements[b].range;
    if from.elements[a].kind != to.elements[b].kind {
        return false;
    }
    if ra.end - ra.start != rb.end - rb.start {
        assert(from.text_of(a as int).len() != to.text_of(b as int).len());
        return false;
    }
    let n: usize = (ra.end - ra.start) as usize;
    let mut k: usize = 0;
    while k < n
        invariant
            from.wf(),
            to.wf(),
            a < from.elements@.len(),
            b < to.elements@.len(),
            ra == from.elements@[a as int].range,
            rb == to.elements@[b as int].range,
            n == ra.end - ra.start,
            n == rb.end - rb.start,
            0 <= k <= n,
            forall|m: int| 0 <= m < k ==> from.text_of(a as int)[m] == to.text_of(b as int)[m],
        decreases n - k,
    {
        if from.text[ra.start as usize + k] != to.text[rb.start as usize + k] {
            assert(from.text_of(a as int)[k as int] != to.text_of(b as int)[k as int]);
            return false;
        }
        k += 1;
    }
    assert(from.text_of(a as int) =~= to.text_of(b as int));
    true
}

/// Appends the atoms of `diff_atoms` to `acc`.
pub fn diff_into(from: &SyntaxTree, a: usize, to: &SyntaxTree, b: usize, acc: &mut Vec<AtomTextEdit>)
    requires
        from.wf(),
        to.wf(),
        a < from.elements@.len(),
        b < to.elements@.len(),
    ensures
        atoms_view(final(acc)@) == atoms_view(old(acc)@) + diff_atoms(from, a as int, to, b as int),
    decreases from.elements@.len() - a,
{
    if is_alike(from, a, to, b) {
        assert(atoms_view(acc@) =~= atoms_view(old(acc)@) + diff_atoms(from, a as int, to, b as int));
        return ;
    }
    let n: usize = from.elements[a].children.len();
    if n > 0 && n == to.elements[b].children.len() {
        let mut k: usize = 0;
        assert(atoms_view(acc@) =~= atoms_view(old(acc)@) + diff_children(from, a as int, to, b as int, 0));
        while k < n
            invariant
                from.wf(),
                to.wf(),
                        a < from.elements@.len(),
                b < to.elements@.len(),
                n == from.elements@[a as int].children@.len(),
                n == to.elements@[b as int].children@.len(),
                0 <= k <= n,
                atoms_view(acc@) == atoms_view(old(acc)@) + diff_children(
                    from,
                    a as int,
                    to,
                    b as int,
                    k as int,
                ),
            decreases n - k,
        {
            let ca: usize = from.elements[a].children[k];
            let cb: usize = to.elements[b].children[k];
            proof {
                assert(a < from.elements@[a as int].children@[k as int]);
                assert(from.elements@[a as int].children@[k as int] < from.elements@.len());
                assert(to.elements@[b as int].children@[k as int] < to.elements@.len());
            }
            diff_into(from, ca, to, cb, acc);
            k += 1;
            assert(atoms_view(acc@) =~= atoms_view(old(acc)@) + diff_children(
                from,
                a as int,
                to,
                b as int,
                k as int,
            ));
        }
    } else {
        let text = to.text(b);
        acc.push(AtomTextEdit { delete: from.elements[a].range, insert: text });
        assert(atoms_view(acc@) =~= atoms_view(old(acc)@) + diff_atoms(from, a as int, to, b as int));
    }
}

/// The edit that turns element `a` of `from` into element `b` of `to`.
/// Applied to the text of `from`, it puts the text of `b` in the place of
/// `a` and changes nothing else.
pub fn diff(from: &SyntaxTree, a: usize, to: &SyntaxTree, b: usize) -> (e: TextEdit)
    requires
        from.wf(),
        to.wf(),
        nested(from),
        nested(to),
        a < from.elements@.len(),
        b < to.elements@.len(),
    ensures
        e@ == diff_atoms(from, a as int, to, b as int),
        e.wf(),
        e.fits(from.text@.len() as int),
        splice(from.text@, e@, 0) == replaced(from.text@, from.elements@[a as int].range, to.text_of(b as int)),
{
    let mut atoms: Vec<AtomTextEdit> = Vec::new();
    diff_into(from, a, to, b, &mut atoms);
    proof {
        lemma_diff_replaces(from, a as int, to, b as int);
        assert(atoms_view(atoms@) =~= diff_atoms(from, a as int, to, b as int));
    }
    TextEdit { atoms }
}

} // verus!
