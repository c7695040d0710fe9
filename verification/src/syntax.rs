//! A syntax tree as plain data: every node and token is an element of one
//! arena, in document order, and refers to its parent and children by index.

use vstd::prelude::*;
use crate::edit::TextRange;

verus! {

/// The kinds of element that the scanners and fixes tell apart.
#[derive(Clone, Copy, Debug, PartialEq, Eq, Structural)]
pub enum SyntaxKind {
    UseTreeList,
    UseTree,
    Path,
    PathSegment,
    SelfKw,
    RecordLit,
    RecordFieldList,
    RecordField,
    NameRef,
    /// Any expression node.
    Expr,
    LCurly,
    RCurly,
    Comma,
    Whitespace,
    Other,
}

/// One node or token.
#[derive(Clone, Debug, PartialEq, Eq)]
pub struct SyntaxElement {
    pub kind: SyntaxKind,
    pub range: TextRange,
    pub parent: Option<usize>,
    pub children: Vec<usize>,
}

/// The text of a file and the elements of its tree.
#[derive(Clone, Debug, PartialEq, Eq)]
pub struct SyntaxTree {
    pub text: Vec<u8>,
    pub elements: Vec<SyntaxElement>,
}

/// The children of kind `kind` among `ids`, in order.
pub open spec fn of_kind(elements: Seq<SyntaxElement>, ids: Seq<usize>, kind: SyntaxKind) -> Seq<usize>
    decreases ids.len(),
{
    if ids.len() == 0 {
        Seq::<usize>::empty()
    } else {
        let rest = of_kind(elements, ids.drop_last(), kind);
        if elements[ids.last() as int].kind == kind {
            rest.push(ids.last())
        } else {
            rest
        }
    }
}

/// The index in `ids` of the first occurrence of `x`, or the length of `ids`
/// where it does not occur.
pub open spec fn position(ids: Seq<usize>, x: usize) -> int
    decreases ids.len(),
{
    if ids.len() == 0 || ids[0] == x {
        0
    } else {
        1 + position(ids.drop_first(), x)
    }
}

/// The index in `ids` of the first element of kind `kind`, or the length of
/// `ids` where there is none.
pub open spec fn position_of_kind(elements: Seq<SyntaxElement>, ids: Seq<usize>, kind: SyntaxKind) -> int
    decreases ids.len(),
{
    if ids.len() == 0 || elements[ids[0] as int].kind == kind {
        0
    } else {
        1 + position_of_kind(elements, ids.drop_first(), kind)
    }
}

impl SyntaxTree {
    /// The range of child `k` of element `i`.
    pub open spec fn child_range(&self, i: int, k: int) -> TextRange {
        self.elements@[self.elements@[i].children@[k] as int].range
    }

    /// What holds of element `i` in a tree: its range lies in the text; its
    /// parent is an element whose range holds its own; each child stands
    /// behind it in the arena and names it as its parent; and the children
    /// follow one another in the text, none reaching into the next.
    pub open spec fn element_wf(&self, i: int) -> bool {
        let e = self.elements@[i];
        &&& e.range.within(self.text@.len() as int)
        &&& (e.parent matches Some(p) ==> p < self.elements@.len()
            && self.elements@[p as int].range.start <= e.range.start
            && e.range.end <= self.elements@[p as int].range.end)
        &&& forall|k: int|
            0 <= k < e.children@.len() ==> i < (#[trigger] e.children@[k]) < self.elements@.len()
                && self.elements@[e.children@[k] as int].parent == Some(i as usize)
        &&& forall|j: int, k: int|
            0 <= j < k < e.children@.len() ==> (#[trigger] self.child_range(i, j)).end <= (
            #[trigger] self.child_range(i, k)).start
    }

    /// The elements stand in document order, every index points into the
    /// arena and every range into the text: `element_wf` holds of each.
    pub open spec fn wf(&self) -> bool {
        forall|i: int|
            #![trigger self.elements@[i]]
            0 <= i < self.elements@.len() ==> self.element_wf(i)
    }

    /// The text that element `i` covers.
    pub open spec fn text_of(&self, i: int) -> Seq<u8> {
        self.text@.subrange(self.elements@[i].range.start as int, self.elements@[i].range.end as int)
    }

    /// The children of `i` that have kind `kind`.
    pub open spec fn children_of_kind_spec(&self, i: int, kind: SyntaxKind) -> Seq<usize> {
        of_kind(self.elements@, self.elements@[i].children@, kind)
    }

    /// The first child of `i` that has kind `kind`.
    pub open spec fn first_child_of_kind_spec(&self, i: int, kind: SyntaxKind) -> Option<usize> {
        let ids = self.elements@[i].children@;
        let p = position_of_kind(self.elements@, ids, kind);
        if p < ids.len() {
            Some(ids[p])
        } else {
            None
        }
    }

    /// The first child of `i`, node or token.
    pub open spec fn first_child_spec(&self, i: int) -> Option<usize> {
        let ids = self.elements@[i].children@;
        if ids.len() > 0 {
            Some(ids[0])
        } else {
            None
        }
    }

    /// The element that stands before `i` among the children of its parent.
    pub open spec fn prev_sibling_spec(&self, i: int) -> Option<usize> {
        match self.elements@[i].parent {
            None => None,
            Some(p) => {
                let ids = self.elements@[p as int].children@;
                let at = position(ids, i as usize);
                if 0 < at < ids.len() {
                    Some(ids[at - 1])
                } else {
                    None
                }
            },
        }
    }

    /// The element that stands behind `i` among the children of its parent.
    pub open spec fn next_sibling_spec(&self, i: int) -> Option<usize> {
        match self.elements@[i].parent {
            None => None,
            Some(p) => {
                let ids = self.elements@[p as int].children@;
                let at = position(ids, i as usize);
                if at + 1 < ids.len() {
                    Some(ids[at + 1])
                } else {
                    None
                }
            },
        }
    }

    /// The first element at or behind `from` with this kind and range.
    pub open spec fn find_spec(&self, kind: SyntaxKind, range: TextRange, from: int) -> Option<usize>
        decreases self.elements@.len() - from,
    {
        if from < 0 || from >= self.elements@.len() {
            None
        } else if self.elements@[from].kind == kind && self.elements@[from].range == range {
            Some(from as usize)
        } else {
            self.find_spec(kind, range, from + 1)
        }
    }

    /// Tests the invariant.
    pub fn validate(&self) -> (b: bool)
        ensures
            b == self.wf(),
    {
        let n: usize = self.elements.len();
        let mut i: usize = 0;
        while i < n
            invariant
                n == self.elements.len(),
                0 <= i <= n,
                forall|j: int| #![trigger self.elements@[j]] 0 <= j < i ==> self.element_wf(j),
            decreases n - i,
        {
            let e = &self.elements[i];
            if e.range.start > e.range.end || (e.range.end as usize) > self.text.len() {
                assert(!self.element_wf(i as int));
                return false;
            }
            match e.parent {
                Some(p) => {
                    if p >= n {
                        assert(!self.element_wf(i as int));
                        return false;
                    }
                    if self.elements[p].range.start > e.range.start || e.range.end
                        > self.elements[p].range.end {
                        assert(!self.element_wf(i as int));
                        return false;
                    }
                },
                None => {},
            }
            let m: usize = e.children.len();
            let mut k: usize = 0;
            let mut reached: u32 = 0;
            while k < m
                invariant
                    m == e.children.len(),
                    0 <= k <= m,
                    n == self.elements.len(),
                    i < n,
                    e == &self.elements[i as int],
                    forall|j: int|
                        0 <= j < k ==> i < (#[trigger] e.children@[j]) < n
                            && self.elements@[e.children@[j] as int].parent == Some(i),
                    forall|j: int| 0 <= j < k ==> (#[trigger] self.child_range(i as int, j)).wf(),
                    forall|a: int, b: int|
                        0 <= a < b < k ==> (#[trigger] self.child_range(i as int, a)).end <= (
                        #[trigger] self.child_range(i as int, b)).start,
                    k > 0 ==> reached == self.child_range(i as int, k - 1).end,
                decreases m - k,
            {
                let c: usize = e.children[k];
                if c >= n || c <= i {
                    assert(!self.element_wf(i as int));
                    return false;
                }
                if self.elements[c].parent != Some(i) {
                    assert(!self.element_wf(i as int));
                    return false;
                }
                let r = self.elements[c].range;
                assert(r == self.child_range(i as int, k as int));
                if r.start > r.end {
                    assert(!self.element_wf(c as int));
                    return false;
                }
                if k > 0 && r.start < reached {
                    assert(self.child_range(i as int, k - 1).end > self.child_range(i as int, k as int).start);
                    assert(!self.element_wf(i as int));
                    return false;
                }
                proof {
                    assert forall|a: int, b: int| 0 <= a < b < k + 1 implies (#[trigger] self.child_range(
                        i as int,
                        a,
                    )).end <= (#[trigger] self.child_range(i as int, b)).start by {
                        if b == k && a < k - 1 {
                            assert(self.child_range(i as int, a).end <= self.child_range(i as int, k - 1).start);
                            assert(self.child_range(i as int, k - 1).wf());
                        }
                    }
                }
                reached = r.end;
                k += 1;
            }
            assert(self.element_wf(i as int));
            i += 1;
        }
        true
    }

    pub fn len(&self) -> (n: usize)
        ensures
            n == self.elements@.len(),
    {
        self.elements.len()
    }

    pub fn kind(&self, i: usize) -> (k: SyntaxKind)
        requires
            i < self.elements@.len(),
        ensures
            k == self.elements@[i as int].kind,
    {
        self.elements[i].kind
    }

    pub fn range(&self, i: usize) -> (r: TextRange)
        requires
            i < self.elements@.len(),
        ensures
            r == self.elements@[i as int].range,
    {
        self.elements[i].range
    }

    pub fn parent(&self, i: usize) -> (p: Option<usize>)
        requires
            i < self.elements@.len(),
        ensures
            p == self.elements@[i as int].parent,
    {
        self.elements[i].parent
    }

    /// A copy of the text that element `i` covers.
    pub fn text(&self, i: usize) -> (t: Vec<u8>)
        requires
            self.wf(),
            i < self.elements@.len(),
        ensures
            t@ == self.text_of(i as int),
    {
        let r = self.elements[i].range;
        let mut t: Vec<u8> = Vec::new();
        crate::edit::extend_from_range(&mut t, &self.text, r.start as usize, r.end as usize);
        assert(t@ =~= self.text_of(i as int));
        t
    }

    /// Whether two elements cover the same text.
    pub fn same_text(&self, i: usize, j: usize) -> (b: bool)
        requires
            self.wf(),
            i < self.elements@.len(),
            j < self.elements@.len(),
        ensures
            b == (self.text_of(i as int) == self.text_of(j as int)),
    {
        let a = self.elements[i].range;
        let c = self.elements[j].range;
        if a.end - a.start != c.end - c.start {
            assert(self.text_of(i as int).len() != self.text_of(j as int).len());
            return false;
        }
        let n: usize = (a.end - a.start) as usize;
        let mut k: usize = 0;
        while k < n
            invariant
                self.wf(),
                i < self.elements@.len(),
                j < self.elements@.len(),
                a == self.elements@[i as int].range,
                c == self.elements@[j as int].range,
                n == a.end - a.start,
                n == c.end - c.start,
                0 <= k <= n,
                forall|m: int| 0 <= m < k ==> self.text_of(i as int)[m] == self.text_of(j as int)[m],
            decreases n - k,
        {
            if self.text[a.start as usize + k] != self.text[c.start as usize + k] {
                assert(self.text_of(i as int)[k as int] != self.text_of(j as int)[k as int]);
                return false;
            }
            k += 1;
        }
        assert(self.text_of(i as int) =~= self.text_of(j as int));
        true
    }

    pub fn first_child(&self, i: usize) -> (c: Option<usize>)
        requires
            self.wf(),
            i < self.elements@.len(),
        ensures
            c == self.first_child_spec(i as int),
            c matches Some(x) ==> x < self.elements@.len(),
    {
        proof {
            if self.elements@[i as int].children@.len() > 0 {
                assert(self.elements@[i as int].children@[0] < self.elements@.len());
            }
        }
        if self.elements[i].children.len() > 0 {
            Some(self.elements[i].children[0])
        } else {
            None
        }
    }

    pub fn first_child_of_kind(&self, i: usize, kind: SyntaxKind) -> (c: Option<usize>)
        requires
            self.wf(),
            i < self.elements@.len(),
        ensures
            c == self.first_child_of_kind_spec(i as int, kind),
            c matches Some(x) ==> x < self.elements@.len() && self.elements@[x as int].kind == kind
                && self.elements@[x as int].parent == Some(i),
    {
        let ids = &self.elements[i].children;
        let n: usize = ids.len();
        let mut k: usize = 0;
        proof {
            assert(ids@.subrange(0, n as int) =~= ids@);
        }
        while k < n
            invariant
                self.wf(),
                i < self.elements@.len(),
                ids == &self.elements[i as int].children,
                n == ids@.len(),
                0 <= k <= n,
                position_of_kind(self.elements@, ids@, kind) == k + position_of_kind(
                    self.elements@,
                    ids@.subrange(k as int, n as int),
                    kind,
                ),
            decreases n - k,
        {
            let c: usize = ids[k];
            proof {
                let rest = ids@.subrange(k as int, n as int);
                assert(rest[0] == c);
                assert(rest.drop_first() =~= ids@.subrange(k + 1, n as int));
                assert(self.elements@[i as int].children@[k as int] < self.elements@.len());
            }
            if self.elements[c].kind == kind {
                return Some(c);
            }
            k += 1;
        }
        None
    }

    pub fn children_of_kind(&self, i: usize, kind: SyntaxKind) -> (out: Vec<usize>)
        requires
            self.wf(),
            i < self.elements@.len(),
        ensures
            out@ == self.children_of_kind_spec(i as int, kind),
            forall|k: int|
                0 <= k < out@.len() ==> (#[trigger] out@[k]) < self.elements@.len()
                    && self.elements@[out@[k] as int].kind == kind
                    && self.elements@[out@[k] as int].parent == Some(i),
    {
        let ids = &self.elements[i].children;
        let n: usize = ids.len();
        let mut out: Vec<usize> = Vec::new();
        let mut k: usize = 0;
        while k < n
            invariant
                self.wf(),
                i < self.elements@.len(),
                ids == &self.elements[i as int].children,
                n == ids@.len(),
                0 <= k <= n,
                out@ == of_kind(self.elements@, ids@.subrange(0, k as int), kind),
                forall|m: int|
                    0 <= m < out@.len() ==> (#[trigger] out@[m]) < self.elements@.len()
                        && self.elements@[out@[m] as int].kind == kind
                        && self.elements@[out@[m] as int].parent == Some(i),
            decreases n - k,
        {
            let c: usize = ids[k];
            proof {
                let upto = ids@.subrange(0, k + 1);
                assert(upto.last() == c);
                assert(upto.drop_last() =~= ids@.subrange(0, k as int));
                assert(self.elements@[i as int].children@[k as int] < self.elements@.len());
            }
            if self.elements[c].kind == kind {
                out.push(c);
            }
            k += 1;
        }
        proof {
            assert(ids@.subrange(0, n as int) =~= ids@);
        }
        out
    }

    /// The index of `x` among `ids`, or their number where `x` is not among them.
    fn index_in(ids: &Vec<usize>, x: usize) -> (at: usize)
        ensures
            at == position(ids@, x),
            at <= ids@.len(),
            at < ids@.len() ==> ids@[at as int] == x,
    {
        let n: usize = ids.len();
        let mut k: usize = 0;
        proof {
            assert(ids@.subrange(0, n as int) =~= ids@);
        }
        while k < n
            invariant
                n == ids@.len(),
                0 <= k <= n,
                position(ids@, x) == k + position(ids@.subrange(k as int, n as int), x),
            decreases n - k,
        {
            proof {
                let rest = ids@.subrange(k as int, n as int);
                assert(rest[0] == ids@[k as int]);
                assert(rest.drop_first() =~= ids@.subrange(k + 1, n as int));
            }
            if ids[k] == x {
                return k;
            }
            k += 1;
        }
        n
    }

    pub fn prev_sibling(&self, i: usize) -> (s: Option<usize>)
        requires
            self.wf(),
            i < self.elements@.len(),
        ensures
            s == self.prev_sibling_spec(i as int),
            s matches Some(x) ==> x < self.elements@.len() && self.elements@[x as int].range.end
                <= self.elements@[i as int].range.start && self.elements@[x as int].parent
                == self.elements@[i as int].parent,
    {
        match self.elements[i].parent {
            None => None,
            Some(p) => {
                let ids = &self.elements[p].children;
                let at: usize = Self::index_in(ids, i);
                if 0 < at && at < ids.len() {
                    assert(self.elements@[p as int].children@[at - 1] < self.elements@.len());
                    assert(self.child_range(p as int, at - 1).end <= self.child_range(p as int, at as int).start);
                    Some(ids[at - 1])
                } else {
                    None
                }
            },
        }
    }

    pub fn next_sibling(&self, i: usize) -> (s: Option<usize>)
        requires
            self.wf(),
            i < self.elements@.len(),
        ensures
            s == self.next_sibling_spec(i as int),
            s matches Some(x) ==> x < self.elements@.len() && self.elements@[i as int].range.end
                <= self.elements@[x as int].range.start && self.elements@[x as int].parent
                == self.elements@[i as int].parent,
    {
        match self.elements[i].parent {
            None => None,
            Some(p) => {
                let ids = &self.elements[p].children;
                let at: usize = Self::index_in(ids, i);
                if at < ids.len() && at + 1 < ids.len() {
                    assert(self.elements@[p as int].children@[at + 1] < self.elements@.len());
                    assert(self.child_range(p as int, at as int).end <= self.child_range(p as int, at + 1).start);
                    Some(ids[at + 1])
                } else {
                    None
                }
            },
        }
    }

    /// Finds the element with this kind and range that comes first.
    pub fn find(&self, kind: SyntaxKind, range: TextRange) -> (r: Option<usize>)
        ensures
            r == self.find_spec(kind, range, 0),
            r matches Some(x) ==> x < self.elements@.len() && self.elements@[x as int].kind == kind
                && self.elements@[x as int].range == range,
    {
        let n: usize = self.elements.len();
        let mut k: usize = 0;
        while k < n
            invariant
                n == self.elements@.len(),
                0 <= k <= n,
                self.find_spec(kind, range, 0) == self.find_spec(kind, range, k as int),
            decreases n - k,
        {
            if self.elements[k].kind == kind && self.elements[k].range == range {
                return Some(k);
            }
            k += 1;
        }
        None
    }
}

} // verus!
