//! The edit model: ranges, atomic edits, and edits made of ordered atoms.
//!
//! Text is a sequence of bytes, and every offset counts bytes of the unedited
//! text.

use vstd::prelude::*;

verus! {

/// A half-open range of byte offsets.
#[derive(Clone, Copy, Debug, PartialEq, Eq, Structural)]
pub struct TextRange {
    pub start: u32,
    pub end: u32,
}

impl TextRange {
    /// The start does not lie behind the end.
    pub open spec fn wf(self) -> bool {
        self.start <= self.end
    }

    /// The range holds no offset.
    pub open spec fn is_empty_spec(self) -> bool {
        self.start == self.end
    }

    /// The range lies inside a text of `len` bytes.
    pub open spec fn within(self, len: int) -> bool {
        self.start <= self.end && self.end <= len
    }

    pub fn new(start: u32, end: u32) -> (r: TextRange)
        requires
            start <= end,
        ensures
            r.start == start,
            r.end == end,
            r.wf(),
    {
        TextRange { start, end }
    }

    /// The empty range at `offset`.
    pub fn empty(offset: u32) -> (r: TextRange)
        ensures
            r.start == offset,
            r.end == offset,
            r.wf(),
    {
        TextRange { start: offset, end: offset }
    }

    pub fn len(&self) -> (n: u32)
        requires
            self.wf(),
        ensures
            n == self.end - self.start,
    {
        self.end - self.start
    }

    pub fn is_empty(&self) -> (b: bool)
        ensures
            b == self.is_empty_spec(),
    {
        self.start == self.end
    }

    /// Whether `offset` lies in the range, its end included.
    pub fn touches(&self, offset: u32) -> (b: bool)
        ensures
            b == (self.start <= offset && offset <= self.end),
    {
        self.start <= offset && offset <= self.end
    }
}

/// One atomic change: remove the bytes of `delete`, put `insert` in their place.
#[derive(Clone, Debug, PartialEq, Eq)]
pub struct AtomTextEdit {
    pub delete: TextRange,
    pub insert: Vec<u8>,
}

/// What an atom is, as a mathematical value.
pub struct AtomView {
    pub delete: TextRange,
    pub insert: Seq<u8>,
}

impl View for AtomTextEdit {
    type V = AtomView;

    open spec fn view(&self) -> AtomView {
        AtomView { delete: self.delete, insert: self.insert@ }
    }
}

/// The views of a vector of atoms, in order.
pub open spec fn atoms_view(atoms: Seq<AtomTextEdit>) -> Seq<AtomView> {
    Seq::new(atoms.len(), |i: int| atoms[i]@)
}

/// Every range is well formed.
pub open spec fn ranges_wf(atoms: Seq<AtomView>) -> bool {
    forall|i: int| 0 <= i < atoms.len() ==> (#[trigger] atoms[i]).delete.wf()
}

/// The ranges ascend and none overlaps another.
pub open spec fn disjoint(atoms: Seq<AtomView>) -> bool {
    forall|i: int, j: int|
        0 <= i < j < atoms.len() ==> (#[trigger] atoms[i]).delete.end <= (#[trigger] atoms[j]).delete.start
}

/// The order in which a builder keeps its atoms: by start, then by end.
pub open spec fn key_le(a: TextRange, b: TextRange) -> bool {
    a.start < b.start || (a.start == b.start && a.end <= b.end)
}

/// The atoms ascend by key.
pub open spec fn key_sorted(atoms: Seq<AtomView>) -> bool {
    forall|i: int, j: int|
        0 <= i < j < atoms.len() ==> key_le((#[trigger] atoms[i]).delete, (#[trigger] atoms[j]).delete)
}

/// Where a new atom with range `r` goes: behind the leading atoms whose key
/// is not greater than its own.
pub open spec fn insert_pos(atoms: Seq<AtomView>, r: TextRange) -> int
    decreases atoms.len(),
{
    if atoms.len() == 0 || !key_le(atoms[0].delete, r) {
        0
    } else {
        1 + insert_pos(atoms.drop_first(), r)
    }
}

/// The text that results from replaying `atoms` over `text`, starting at the
/// offset `from` of the unedited text: the kept bytes before each atom, the
/// atom's insertion, and so on, then the rest of the text.
pub open spec fn splice(text: Seq<u8>, atoms: Seq<AtomView>, from: int) -> Seq<u8>
    decreases atoms.len(),
{
    if atoms.len() == 0 {
        text.subrange(from, text.len() as int)
    } else {
        text.subrange(from, atoms[0].delete.start as int) + atoms[0].insert + splice(
            text,
            atoms.drop_first(),
            atoms[0].delete.end as int,
        )
    }
}

/// The text with the bytes of `range` replaced by `with`.
pub open spec fn replaced(text: Seq<u8>, range: TextRange, with: Seq<u8>) -> Seq<u8> {
    text.subrange(0, range.start as int) + with + text.subrange(range.end as int, text.len() as int)
}

/// The atoms that a builder holds after `delete(range)` followed by
/// `insert(range.start, with)`: the insertion sorts before a deletion that is
/// not empty, and behind one that is.
pub open spec fn delete_then_insert(range: TextRange, with: Seq<u8>) -> Seq<AtomView> {
    let del = AtomView { delete: range, insert: Seq::<u8>::empty() };
    let ins = AtomView { delete: TextRange { start: range.start, end: range.start }, insert: with };
    if range.start < range.end {
        seq![ins, del]
    } else {
        seq![del, ins]
    }
}

/// An edit of one atom replaces that atom's range.
pub proof fn lemma_splice_single(text: Seq<u8>, range: TextRange, with: Seq<u8>)
    requires
        range.within(text.len() as int),
    ensures
        splice(text, seq![(AtomView { delete: range, insert: with })], 0) == replaced(text, range, with),
{
    let atoms = seq![(AtomView { delete: range, insert: with })];
    assert(atoms.drop_first().len() == 0);
    assert(splice(text, atoms.drop_first(), range.end as int) == text.subrange(
        range.end as int,
        text.len() as int,
    ));
    assert(splice(text, atoms, 0) =~= replaced(text, range, with));
}

/// Deleting a range and inserting at its start replaces the range.
pub proof fn lemma_splice_delete_then_insert(text: Seq<u8>, range: TextRange, with: Seq<u8>)
    requires
        range.within(text.len() as int),
    ensures
        splice(text, delete_then_insert(range, with), 0) == replaced(text, range, with),
        disjoint(delete_then_insert(range, with)),
        ranges_wf(delete_then_insert(range, with)),
{
    let atoms = delete_then_insert(range, with);
    let one = atoms.drop_first();
    assert(one.len() == 1);
    assert(one.drop_first().len() == 0);
    assert(one[0] == atoms[1]);
    assert(splice(text, one.drop_first(), one[0].delete.end as int) == text.subrange(
        one[0].delete.end as int,
        text.len() as int,
    ));
    assert(splice(text, one, atoms[0].delete.end as int) =~= text.subrange(
        atoms[0].delete.end as int,
        one[0].delete.start as int,
    ) + one[0].insert + text.subrange(one[0].delete.end as int, text.len() as int));
    assert(splice(text, atoms, 0) =~= replaced(text, range, with));
}

/// Appends the bytes `src[from..to]` to `buf`.
pub fn extend_from_range(buf: &mut Vec<u8>, src: &Vec<u8>, from: usize, to: usize)
    requires
        from <= to <= src.len(),
    ensures
        final(buf)@ == old(buf)@ + src@.subrange(from as int, to as int),
{
    let mut i: usize = from;
    while i < to
        invariant
            from <= i <= to <= src.len(),
            buf@ == old(buf)@ + src@.subrange(from as int, i as int),
        decreases to - i,
    {
        buf.push(src[i]);
        i += 1;
        assert(buf@ =~= old(buf)@ + src@.subrange(from as int, i as int));
    }
    assert(buf@ =~= old(buf)@ + src@.subrange(from as int, to as int));
}

/// An edit of one text: atoms in ascending order that do not overlap.
#[derive(Clone, Debug, PartialEq, Eq)]
pub struct TextEdit {
    pub atoms: Vec<AtomTextEdit>,
}

impl View for TextEdit {
    type V = Seq<AtomView>;

    open spec fn view(&self) -> Seq<AtomView> {
        atoms_view(self.atoms@)
    }
}

impl TextEdit {
    /// The invariant of an edit.
    pub open spec fn wf(&self) -> bool {
        ranges_wf(self@) && disjoint(self@)
    }

    /// No atom reaches beyond a text of `len` bytes.
    pub open spec fn fits(&self, len: int) -> bool {
        forall|i: int| 0 <= i < self@.len() ==> (#[trigger] self@[i]).delete.end <= len
    }

    /// The edit that removes `range`.
    pub fn delete(range: TextRange) -> (e: TextEdit)
        requires
            range.wf(),
        ensures
            e.wf(),
            e@ == seq![(AtomView { delete: range, insert: Seq::<u8>::empty() })],
    {
        TextEdit::replace(range, Vec::new())
    }

    /// The edit that puts `text` at `offset`.
    pub fn insert(offset: u32, text: Vec<u8>) -> (e: TextEdit)
        ensures
            e.wf(),
            e@ == seq![(AtomView { delete: (TextRange { start: offset, end: offset }), insert: text@ })],
    {
        TextEdit::replace(TextRange::empty(offset), text)
    }

    /// The edit that puts `text` in the place of `range`.
    pub fn replace(range: TextRange, text: Vec<u8>) -> (e: TextEdit)
        requires
            range.wf(),
        ensures
            e.wf(),
            e@ == seq![(AtomView { delete: range, insert: text@ })],
    {
        let mut atoms: Vec<AtomTextEdit> = Vec::new();
        atoms.push(AtomTextEdit { delete: range, insert: text });
        let e = TextEdit { atoms };
        assert(e@ =~= seq![(AtomView { delete: range, insert: text@ })]);
        e
    }

    /// Whether every atom lies inside a text of `len` bytes.
    pub fn applies_to(&self, len: usize) -> (b: bool)
        requires
            self.wf(),
        ensures
            b == self.fits(len as int),
    {
        let n: usize = self.atoms.len();
        if n == 0 {
            return true;
        }
        let last: u32 = self.atoms[n - 1].delete.end;
        proof {
            assert(self@[n - 1].delete.end == last);
            if last <= len {
                assert forall|i: int| 0 <= i < self@.len() implies (#[trigger] self@[i]).delete.end
                    <= len by {
                    if i < n - 1 {
                        assert(self@[i].delete.end <= self@[n - 1].delete.start);
                        assert(self@[n - 1].delete.wf());
                    }
                }
            }
        }
        (last as usize) <= len
    }

    /// Replays the atoms over `text`, every offset taken in the unedited text.
    pub fn apply(&self, text: &Vec<u8>) -> (out: Vec<u8>)
        requires
            self.wf(),
            self.fits(text.len() as int),
        ensures
            out@ == splice(text@, self@, 0),
    {
        let mut buf: Vec<u8> = Vec::new();
        let mut prev: usize = 0;
        let n: usize = self.atoms.len();
        let mut k: usize = 0;
        proof {
            assert(self@.subrange(0, n as int) =~= self@);
            assert(buf@ + splice(text@, self@, 0) =~= splice(text@, self@, 0));
        }
        while k < n
            invariant
                n == self.atoms.len(),
                0 <= k <= n,
                self.wf(),
                self.fits(text.len() as int),
                prev <= text.len(),
                forall|j: int| k <= j < n ==> prev <= (#[trigger] self@[j]).delete.start,
                buf@ + splice(text@, self@.subrange(k as int, n as int), prev as int) == splice(
                    text@,
                    self@,
                    0,
                ),
            decreases n - k,
        {
            let atom = &self.atoms[k];
            let start: usize = atom.delete.start as usize;
            let end: usize = atom.delete.end as usize;
            let ghost before = buf@;
            let ghost rest = self@.subrange(k as int, n as int);
            proof {
                assert(self@[k as int] == atom@);
                assert(rest[0] == atom@);
                assert(rest.drop_first() =~= self@.subrange(k + 1, n as int));
                assert(atom@.delete.wf());
                assert(atom@.delete.end <= text.len());
            }
            extend_from_range(&mut buf, text, prev, start);
            extend_from_range(&mut buf, &atom.insert, 0, atom.insert.len());
            proof {
                assert(atom.insert@.subrange(0, atom.insert.len() as int) =~= atom.insert@);
                assert(buf@ =~= before + (text@.subrange(prev as int, start as int) + atom@.insert));
                assert(forall|j: int| k + 1 <= j < n ==> end <= (#[trigger] self@[j]).delete.start);
                assert(buf@ + splice(text@, self@.subrange(k + 1, n as int), end as int) =~= before
                    + splice(text@, rest, prev as int));
            }
            prev = end;
            k += 1;
        }
        proof {
            assert(self@.subrange(n as int, n as int).len() == 0);
        }
        extend_from_range(&mut buf, text, prev, text.len());
        buf
    }
}

/// Collects atoms, in any order, for one edit.
pub struct TextEditBuilder {
    pub atoms: Vec<AtomTextEdit>,
}

impl View for TextEditBuilder {
    type V = Seq<AtomView>;

    open spec fn view(&self) -> Seq<AtomView> {
        atoms_view(self.atoms@)
    }
}

impl TextEditBuilder {
    /// The builder keeps its atoms sorted by key; atoms with one key stay in
    /// the order in which they came.
    pub open spec fn wf(&self) -> bool {
        ranges_wf(self@) && key_sorted(self@)
    }

    pub fn new() -> (b: TextEditBuilder)
        ensures
            b.wf(),
            b@ == Seq::<AtomView>::empty(),
    {
        let b = TextEditBuilder { atoms: Vec::new() };
        assert(b@ =~= Seq::<AtomView>::empty());
        b
    }

    /// Adds the atom that puts `text` in the place of `range`.
    pub fn replace(&mut self, range: TextRange, text: Vec<u8>)
        requires
            old(self).wf(),
            range.wf(),
        ensures
            final(self).wf(),
            final(self)@ == old(self)@.insert(
                insert_pos(old(self)@, range),
                (AtomView { delete: range, insert: text@ }),
            ),
    {
        let n: usize = self.atoms.len();
        let mut p: usize = 0;
        proof {
            assert(self@.subrange(0, n as int) =~= self@);
        }
        while p < n && Self::precedes(&self.atoms[p].delete, &range)
            invariant
                n == self.atoms.len(),
                0 <= p <= n,
                self.atoms == old(self).atoms,
                forall|j: int| 0 <= j < p ==> key_le((#[trigger] self@[j]).delete, range),
                insert_pos(self@, range) == p + insert_pos(self@.subrange(p as int, n as int), range),
            decreases n - p,
        {
            proof {
                let rest = self@.subrange(p as int, n as int);
                assert(rest[0] == self@[p as int]);
                assert(rest.drop_first() =~= self@.subrange(p + 1, n as int));
            }
            p += 1;
        }
        proof {
            let rest = self@.subrange(p as int, n as int);
            if p < n {
                assert(rest[0] == self@[p as int]);
            }
            assert(insert_pos(rest, range) == 0);
        }
        let ghost before = self@;
        let ghost new_atom = AtomView { delete: range, insert: text@ };
        self.atoms.insert(p, AtomTextEdit { delete: range, insert: text });
        proof {
            assert(self@ =~= before.insert(p as int, new_atom));
            assert forall|i: int, j: int| 0 <= i < j < self@.len() implies key_le(
                (#[trigger] self@[i]).delete,
                (#[trigger] self@[j]).delete,
            ) by {
                if i < p && j > p {
                    assert(self@[i] == before[i]);
                    assert(self@[j] == before[j - 1]);
                } else if i < p && j == p {
                    assert(self@[i] == before[i]);
                } else if i == p {
                    assert(self@[j] == before[j - 1]);
                    assert(!key_le(before[p as int].delete, range));
                    assert(p as int == j - 1 || key_le(before[p as int].delete, before[j - 1].delete));
                } else if i > p {
                    assert(self@[i] == before[i - 1]);
                    assert(self@[j] == before[j - 1]);
                } else {
                    assert(self@[i] == before[i]);
                    assert(self@[j] == before[j]);
                }
            }
            assert forall|i: int| 0 <= i < self@.len() implies (#[trigger] self@[i]).delete.wf() by {
                if i < p {
                    assert(self@[i] == before[i]);
                } else if i > p {
                    assert(self@[i] == before[i - 1]);
                }
            }
        }
    }

    /// Adds the atom that removes `range`.
    pub fn delete(&mut self, range: TextRange)
        requires
            old(self).wf(),
            range.wf(),
        ensures
            final(self).wf(),
            final(self)@ == old(self)@.insert(
                insert_pos(old(self)@, range),
                (AtomView { delete: range, insert: Seq::<u8>::empty() }),
            ),
    {
        self.replace(range, Vec::new());
    }

    /// Adds the atom that puts `text` at `offset`.
    pub fn insert(&mut self, offset: u32, text: Vec<u8>)
        requires
            old(self).wf(),
        ensures
            final(self).wf(),
            final(self)@ == old(self)@.insert(
                insert_pos(old(self)@, (TextRange { start: offset, end: offset })),
                (AtomView { delete: (TextRange { start: offset, end: offset }), insert: text@ }),
            ),
    {
        self.replace(TextRange::empty(offset), text);
    }

    /// Whether the atoms collected so far make an edit: no two of them overlap.
    pub fn is_disjoint(&self) -> (b: bool)
        requires
            self.wf(),
        ensures
            b == disjoint(self@),
    {
        let n: usize = self.atoms.len();
        let mut k: usize = 1;
        while k < n
            invariant
                n == self.atoms.len(),
                1 <= k,
                self.wf(),
                forall|i: int, j: int|
                    0 <= i < j < k && j < n ==> (#[trigger] self@[i]).delete.end <= (
                    #[trigger] self@[j]).delete.start,
            decreases n - k,
        {
            if self.atoms[k - 1].delete.end > self.atoms[k].delete.start {
                proof {
                    assert(self@[k - 1].delete.end > self@[k as int].delete.start);
                }
                return false;
            }
            proof {
                assert(self@[k - 1].delete.end <= self@[k as int].delete.start);
                assert forall|i: int, j: int| 0 <= i < j < k + 1 && j < n implies (
                #[trigger] self@[i]).delete.end <= (#[trigger] self@[j]).delete.start by {
                    if j == k && i < k - 1 {
                        assert(self@[i].delete.end <= self@[k - 1].delete.start);
                        assert(self@[k - 1].delete.wf());
                    }
                }
            }
            k += 1;
        }
        true
    }

    /// Hands the atoms over as an edit.
    pub fn finish(self) -> (e: TextEdit)
        requires
            self.wf(),
            disjoint(self@),
        ensures
            e.wf(),
            e@ == self@,
    {
        TextEdit { atoms: self.atoms }
    }

    fn precedes(a: &TextRange, b: &TextRange) -> (r: bool)
        ensures
            r == key_le(*a, *b),
    {
        a.start < b.start || (a.start == b.start && a.end <= b.end)
    }
}

} // verus!
