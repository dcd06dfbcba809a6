use vstd::prelude::*;
use vstd::utf8::encode_utf8;

verus! {

/// A replacement of the bytes `start..end` of a module's source by `new_text`.
#[derive(Debug)]
pub struct TextChange {
    pub start: usize,
    pub end: usize,
    pub new_text: String,
}

pub open spec fn change_view(c: TextChange) -> (int, int, Seq<char>) {
    (c.start as int, c.end as int, c.new_text@)
}

/// A change as its span and the bytes of its replacement text.
pub open spec fn edit_view(c: TextChange) -> (int, int, Seq<u8>) {
    (c.start as int, c.end as int, encode_utf8(c.new_text@))
}

pub open spec fn edits_view(cs: Seq<TextChange>) -> Seq<(int, int, Seq<u8>)> {
    cs.map_values(|c: TextChange| edit_view(c))
}

/// Every span lies in a source of `len` bytes, no two spans start at one
/// offset, and a span ends before the next one starts.
pub open spec fn edits_valid(cs: Seq<(int, int, Seq<u8>)>, len: int) -> bool {
    &&& forall|i: int| 0 <= i < cs.len() ==> 0 <= (#[trigger] cs[i]).0 <= cs[i].1 <= len
    &&& forall|i: int, j: int|
        0 <= i < cs.len() && 0 <= j < cs.len() && i != j ==> (#[trigger] cs[i]).0 != (#[trigger] cs[j]).0 && (
        cs[i].0 < cs[j].0 ==> cs[i].1 <= cs[j].0)
}

/// The edit whose span starts at `pos`, if there is one.
pub open spec fn edit_at(cs: Seq<(int, int, Seq<u8>)>, pos: int) -> Option<(int, int, Seq<u8>)> {
    if exists|i: int| 0 <= i < cs.len() && (#[trigger] cs[i]).0 == pos {
        Some(cs[choose|i: int| 0 <= i < cs.len() && (#[trigger] cs[i]).0 == pos])
    } else {
        None
    }
}

/// The rewritten text from offset `pos` on: where an edit starts, its
/// replacement and then the text after its span; elsewhere the source byte.
/// It depends on the set of edits alone, not on their order.
pub open spec fn render(src: Seq<u8>, cs: Seq<(int, int, Seq<u8>)>, pos: int) -> Seq<u8>
    decreases src.len() + 1 - pos,
{
    if pos < 0 || pos > src.len() {
        Seq::empty()
    } else {
        let rest = if pos < src.len() {
            seq![src[pos]] + render(src, cs, pos + 1)
        } else {
            Seq::empty()
        };
        match edit_at(cs, pos) {
            Some(c) => if pos < c.1 <= src.len() {
                c.2 + render(src, cs, c.1)
            } else {
                c.2 + rest
            },
            None => rest,
        }
    }
}

/// Why a set of changes could not be applied.
#[derive(Debug, PartialEq, Eq)]
pub enum ApplyError {
    /// The change with this index has a span outside the source.
    OutOfBounds(usize),
    /// The changes with these indexes start at one offset or overlap.
    Overlap(usize, usize),
}

fn check_edits(source: &[u8], changes: &Vec<TextChange>) -> (r: Result<(), ApplyError>)
    ensures
        r is Ok <==> edits_valid(edits_view(changes@), source@.len() as int),
        r matches Err(ApplyError::OutOfBounds(i)) ==> i < changes@.len() && !(changes@[i as int].start
            <= changes@[i as int].end <= source@.len()),
        r matches Err(ApplyError::Overlap(i, j)) ==> i < changes@.len() && j < changes@.len() && i != j && (
        changes@[i as int].start == changes@[j as int].start || (changes@[i as int].start
            < changes@[j as int].start && changes@[i as int].end > changes@[j as int].start)),
{
    let ghost cv = edits_view(changes@);
    let n = changes.len();
    let mut i: usize = 0;
    while i < n
        invariant
            n == changes@.len(),
            cv == edits_view(changes@),
            i <= n,
            forall|k: int| 0 <= k < i ==> 0 <= (#[trigger] cv[k]).0 <= cv[k].1 <= source@.len(),
        decreases n - i,
    {
        if !(changes[i].start <= changes[i].end && changes[i].end <= source.len()) {
            assert(cv[i as int] == edit_view(changes@[i as int]));
            return Err(ApplyError::OutOfBounds(i));
        }
        i = i + 1;
    }
    let mut i: usize = 0;
    while i < n
        invariant
            n == changes@.len(),
            cv == edits_view(changes@),
            i <= n,
            forall|k: int| 0 <= k < n ==> 0 <= (#[trigger] cv[k]).0 <= cv[k].1 <= source@.len(),
            forall|k: int, l: int|
                0 <= k < n && 0 <= l < n && k != l && (k < i || l < i) ==> (#[trigger] cv[k]).0 != (
                #[trigger] cv[l]).0 && (cv[k].0 < cv[l].0 ==> cv[k].1 <= cv[l].0),
        decreases n - i,
    {
        let mut j: usize = 0;
        while j < n
            invariant
                n == changes@.len(),
                cv == edits_view(changes@),
                i < n,
                j <= n,
                forall|k: int| 0 <= k < n ==> 0 <= (#[trigger] cv[k]).0 <= cv[k].1 <= source@.len(),
                forall|k: int, l: int|
                    0 <= k < n && 0 <= l < n && k != l && (k < i || l < i) ==> (#[trigger] cv[k]).0 != (
                    #[trigger] cv[l]).0 && (cv[k].0 < cv[l].0 ==> cv[k].1 <= cv[l].0),
                forall|l: int|
                    0 <= l < j && l != i ==> cv[i as int].0 != (#[trigger] cv[l]).0 && (cv[i as int].0 < cv[l].0
                        ==> cv[i as int].1 <= cv[l].0) && (cv[l].0 < cv[i as int].0 ==> cv[l].1 <= cv[i as int].0),
            decreases n - j,
        {
            if j != i {
                if changes[i].start == changes[j].start || (changes[i].start < changes[j].start
                    && changes[i].end > changes[j].start) {
                    assert(cv[i as int] == edit_view(changes@[i as int]));
                    assert(cv[j as int] == edit_view(changes@[j as int]));
                    return Err(ApplyError::Overlap(i, j));
                }
                if changes[j].start < changes[i].start && changes[j].end > changes[i].start {
                    assert(cv[i as int] == edit_view(changes@[i as int]));
                    assert(cv[j as int] == edit_view(changes@[j as int]));
                    return Err(ApplyError::Overlap(j, i));
                }
            }
            j = j + 1;
        }
        i = i + 1;
    }
    Ok(())
}

fn find_edit_at(changes: &Vec<TextChange>, pos: usize) -> (r: Option<usize>)
    ensures
        match r {
            Some(k) => k < changes@.len() && changes@[k as int].start == pos,
            None => forall|k: int| 0 <= k < changes@.len() ==> (#[trigger] changes@[k]).start != pos,
        },
{
    let mut k: usize = 0;
    while k < changes.len()
        invariant
            k <= changes@.len(),
            forall|l: int| 0 <= l < k ==> (#[trigger] changes@[l]).start != pos,
        decreases changes@.len() - k,
    {
        if changes[k].start == pos {
            return Some(k);
        }
        k = k + 1;
    }
    None
}

fn push_str_bytes(out: &mut Vec<u8>, s: &String)
    ensures
        final(out)@ == old(out)@ + encode_utf8(s@),
{
    let b = s.as_str().as_bytes();
    let mut t: usize = 0;
    while t < b.len()
        invariant
            t <= b@.len(),
            b@ == encode_utf8(s@),
            out@ == old(out)@ + b@.subrange(0, t as int),
        decreases b@.len() - t,
    {
        out.push(b[t]);
        assert(b@.subrange(0, t + 1 as int) =~= b@.subrange(0, t as int).push(b@[t as int]));
        t = t + 1;
    }
    assert(b@.subrange(0, b@.len() as int) =~= b@);
}

/// Applies a module's changes to its source bytes, whatever their order.
/// Refuses a span outside the source, and two spans that start at one
/// offset or overlap.
pub fn apply_text_changes(source: &[u8], changes: &Vec<TextChange>) -> (r: Result<Vec<u8>, ApplyError>)
    ensures
        r is Ok <==> edits_valid(edits_view(changes@), source@.len() as int),
        r matches Ok(out) ==> out@ == render(source@, edits_view(changes@), 0),
        r matches Err(ApplyError::OutOfBounds(i)) ==> i < changes@.len() && !(changes@[i as int].start
            <= changes@[i as int].end <= source@.len()),
        r matches Err(ApplyError::Overlap(i, j)) ==> i < changes@.len() && j < changes@.len() && i != j && (
        changes@[i as int].start == changes@[j as int].start || (changes@[i as int].start
            < changes@[j as int].start && changes@[i as int].end > changes@[j as int].start)),
{
    match check_edits(source, changes) {
        Err(e) => {
            return Err(e);
        },
        Ok(()) => {},
    }
    let ghost cv = edits_view(changes@);
    let ghost src = source@;
    let len = source.len();
    let mut out: Vec<u8> = Vec::new();
    let mut pos: usize = 0;
    let mut done = false;
    while !done
        invariant
            len == src.len(),
            src == source@,
            cv == edits_view(changes@),
            edits_valid(cv, len as int),
            pos <= len,
            !done ==> out@ + render(src, cv, pos as int) == render(src, cv, 0),
            done ==> out@ == render(src, cv, 0),
        decreases len - pos, (if done { 0int } else { 1int }),
    {
        let ghost before = out@;
        match find_edit_at(changes, pos) {
            None => {
                assert(edit_at(cv, pos as int) is None) by {
                    assert forall|i: int| 0 <= i < cv.len() implies (#[trigger] cv[i]).0 != pos by {
                        assert(changes@[i].start != pos);
                    }
                }
                if pos < len {
                    out.push(source[pos]);
                    assert(out@ + render(src, cv, pos + 1) =~= before + render(src, cv, pos as int));
                    pos = pos + 1;
                } else {
                    assert(render(src, cv, len + 1) =~= Seq::<u8>::empty());
                    assert(out@ =~= before + render(src, cv, pos as int));
                    done = true;
                }
            },
            Some(k) => {
                assert(edit_at(cv, pos as int) == Some(cv[k as int])) by {
                    assert(cv[k as int].0 == pos);
                    let c = choose|i: int| 0 <= i < cv.len() && (#[trigger] cv[i]).0 == pos;
                    assert(c == k);
                }
                let end = changes[k].end;
                push_str_bytes(&mut out, &changes[k].new_text);
                if pos < end {
                    assert(out@ + render(src, cv, end as int) =~= before + render(src, cv, pos as int));
                    pos = end;
                } else if pos < len {
                    out.push(source[pos]);
                    assert(out@ + render(src, cv, pos + 1) =~= before + render(src, cv, pos as int));
                    pos = pos + 1;
                } else {
                    assert(render(src, cv, len + 1) =~= Seq::<u8>::empty());
                    assert(out@ =~= before + render(src, cv, pos as int));
                    done = true;
                }
            },
        }
    }
    Ok(out)
}

proof fn lemma_edit_at_same_set(a: Seq<(int, int, Seq<u8>)>, b: Seq<(int, int, Seq<u8>)>, len: int, pos: int)
    requires
        edits_valid(a, len),
        edits_valid(b, len),
        forall|e: (int, int, Seq<u8>)| a.contains(e) <==> b.contains(e),
    ensures
        edit_at(a, pos) == edit_at(b, pos),
{
    if exists|i: int| 0 <= i < a.len() && (#[trigger] a[i]).0 == pos {
        let i = choose|i: int| 0 <= i < a.len() && (#[trigger] a[i]).0 == pos;
        assert(a.contains(a[i]));
        let j = choose|j: int| 0 <= j < b.len() && b[j] == a[i];
        assert(b[j].0 == pos);
        let k = choose|k: int| 0 <= k < b.len() && (#[trigger] b[k]).0 == pos;
        assert(k == j);
    } else if exists|j: int| 0 <= j < b.len() && (#[trigger] b[j]).0 == pos {
        let j = choose|j: int| 0 <= j < b.len() && (#[trigger] b[j]).0 == pos;
        assert(b.contains(b[j]));
        let i = choose|i: int| 0 <= i < a.len() && a[i] == b[j];
        assert(a[i].0 == pos);
    }
}

proof fn lemma_render_same_set(src: Seq<u8>, a: Seq<(int, int, Seq<u8>)>, b: Seq<(int, int, Seq<u8>)>, pos: int)
    requires
        edits_valid(a, src.len() as int),
        edits_valid(b, src.len() as int),
        forall|e: (int, int, Seq<u8>)| a.contains(e) <==> b.contains(e),
    ensures
        render(src, a, pos) == render(src, b, pos),
    decreases src.len() + 1 - pos,
{
    if 0 <= pos <= src.len() {
        lemma_edit_at_same_set(a, b, src.len() as int, pos);
        if pos < src.len() {
            lemma_render_same_set(src, a, b, pos + 1);
        }
        match edit_at(a, pos) {
            Some(c) => if pos < c.1 <= src.len() {
                lemma_render_same_set(src, a, b, c.1);
            },
            None => {},
        }
    }
}

/// Applying changes does not depend on their order: two valid lists that
/// hold the same changes give the same text.
pub proof fn lemma_apply_order_independent(src: Seq<u8>, a: Seq<TextChange>, b: Seq<TextChange>)
    requires
        edits_valid(edits_view(a), src.len() as int),
        edits_valid(edits_view(b), src.len() as int),
        forall|c: TextChange| a.contains(c) <==> b.contains(c),
    ensures
        render(src, edits_view(a), 0) == render(src, edits_view(b), 0),
{
    let av = edits_view(a);
    let bv = edits_view(b);
    assert forall|e: (int, int, Seq<u8>)| av.contains(e) <==> bv.contains(e) by {
        if av.contains(e) {
            let i = choose|i: int| 0 <= i < av.len() && av[i] == e;
            assert(a.contains(a[i]));
            let j = choose|j: int| 0 <= j < b.len() && b[j] == a[i];
            assert(bv[j] == e);
        }
        if bv.contains(e) {
            let j = choose|j: int| 0 <= j < bv.len() && bv[j] == e;
            assert(b.contains(b[j]));
            let i = choose|i: int| 0 <= i < a.len() && a[i] == b[j];
            assert(av[i] == e);
        }
    }
    lemma_render_same_set(src, av, bv, 0);
}

proof fn lemma_render_no_edits(src: Seq<u8>, pos: int)
    requires
        0 <= pos <= src.len(),
    ensures
        render(src, Seq::empty(), pos) == src.subrange(pos, src.len() as int),
    decreases src.len() - pos,
{
    assert(edit_at(Seq::<(int, int, Seq<u8>)>::empty(), pos) is None);
    if pos < src.len() {
        lemma_render_no_edits(src, pos + 1);
        assert(seq![src[pos]] + src.subrange(pos + 1, src.len() as int) =~= src.subrange(pos, src.len() as int));
    } else {
        assert(src.subrange(pos, src.len() as int) =~= Seq::<u8>::empty());
    }
}

/// With no changes, the rewritten text is the source, byte for byte.
pub proof fn lemma_no_changes_keep_source(src: Seq<u8>)
    ensures
        edits_valid(Seq::empty(), src.len() as int),
        render(src, Seq::empty(), 0) == src,
{
    lemma_render_no_edits(src, 0);
    assert(src.subrange(0, src.len() as int) =~= src);
}

} // verus!
