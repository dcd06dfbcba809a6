use vstd::prelude::*;

verus! {

/// An output file path as the sequence of its segments, file name last.
pub open spec fn segs_view(p: Seq<String>) -> Seq<Seq<char>> {
    p.map_values(|s: String| s@)
}

/// A path segment: not empty, and without `/` or `\\`.
pub open spec fn segment_ok(seg: Seq<char>) -> bool {
    seg.len() > 0 && forall|k: int| 0 <= k < seg.len() ==> seg[k] != '/' && seg[k] != '\\'
}

/// Every segment of a path is a proper segment.
pub open spec fn segments_ok(p: Seq<Seq<char>>) -> bool {
    forall|k: int| 0 <= k < p.len() ==> segment_ok(#[trigger] p[k])
}

fn segment_ok_exec(seg: &String) -> (r: bool)
    ensures
        r == segment_ok(seg@),
{
    let s = seg.as_str();
    let n = s.unicode_len();
    if n == 0 {
        return false;
    }
    let mut i: usize = 0;
    while i < n
        invariant
            n == seg@.len(),
            s@ == seg@,
            i <= n,
            forall|k: int| 0 <= k < i ==> seg@[k] != '/' && seg@[k] != '\\',
        decreases n - i,
    {
        let c = s.get_char(i);
        if c == '/' || c == '\\' {
            return false;
        }
        i = i + 1;
    }
    true
}

/// Whether every segment of the path is a proper segment.
pub fn check_segments(p: &Vec<String>) -> (r: bool)
    ensures
        r == segments_ok(segs_view(p@)),
{
    let mut i: usize = 0;
    while i < p.len()
        invariant
            i <= p@.len(),
            forall|k: int| 0 <= k < i ==> segment_ok(#[trigger] segs_view(p@)[k]),
        decreases p@.len() - i,
    {
        if !segment_ok_exec(&p[i]) {
            assert(!segment_ok(segs_view(p@)[i as int]));
            return false;
        }
        i = i + 1;
    }
    true
}

proof fn lemma_join_no_backslash(segs: Seq<Seq<char>>)
    requires
        segments_ok(segs),
    ensures
        forall|k: int| 0 <= k < join_segments(segs).len() ==> join_segments(segs)[k] != '\\',
    decreases segs.len(),
{
    if segs.len() > 1 {
        let prev = segs.drop_last();
        assert(segments_ok(prev)) by {
            assert forall|k: int| 0 <= k < prev.len() implies segment_ok(#[trigger] prev[k]) by {
                assert(prev[k] == segs[k]);
            }
        }
        lemma_join_no_backslash(prev);
        assert(segment_ok(segs[segs.len() - 1]));
        let j = join_segments(segs);
        assert forall|k: int| 0 <= k < j.len() implies j[k] != '\\' by {
            let a = join_segments(prev);
            if k < a.len() {
                assert(j[k] == a[k]);
            } else if k == a.len() {
                assert(j[k] == '/');
            } else {
                assert(j[k] == segs.last()[k - a.len() - 1]);
            }
        }
    } else if segs.len() == 1 {
        assert(segment_ok(segs[0]));
    }
}

proof fn lemma_parent_steps_no_backslash(n: nat)
    ensures
        forall|k: int| 0 <= k < parent_steps(n).len() ==> parent_steps(n)[k] != '\\',
    decreases n,
{
    if n > 0 {
        lemma_parent_steps_no_backslash((n - 1) as nat);
        let p = parent_steps((n - 1) as nat);
        assert forall|k: int| 0 <= k < parent_steps(n).len() implies parent_steps(n)[k] != '\\' by {
            if k < p.len() {
                assert(parent_steps(n)[k] == p[k]);
            }
        }
    }
}

/// A relative reference between two paths of proper segments uses `/` as its
/// only separator: it holds no `\\`.
pub proof fn lemma_relative_text_slash_only(from: Seq<Seq<char>>, to: Seq<Seq<char>>)
    requires
        from.len() > 0,
        to.len() > 0,
        segments_ok(to),
    ensures
        forall|k: int| 0 <= k < relative_text(from, to).len() ==> relative_text(from, to)[k] != '\\',
{
    let d = descent(from, to);
    lemma_common_len(dir_of(from), dir_of(to));
    assert(segments_ok(d)) by {
        let c = common_len(dir_of(from), dir_of(to));
        assert forall|k: int| 0 <= k < d.len() implies segment_ok(#[trigger] d[k]) by {
            assert(d[k] == to[k + c]);
            assert(segment_ok(to[k + c]));
        }
    }
    lemma_join_no_backslash(d);
    lemma_parent_steps_no_backslash(ups(from, to));
    let p = relative_prefix(ups(from, to));
    let t = relative_text(from, to);
    assert forall|k: int| 0 <= k < t.len() implies t[k] != '\\' by {
        if k < p.len() {
            assert(t[k] == p[k]);
        } else {
            assert(t[k] == join_segments(d)[k - p.len()]);
        }
    }
}

/// The segments joined with `/`.
pub open spec fn join_segments(segs: Seq<Seq<char>>) -> Seq<char>
    decreases segs.len(),
{
    if segs.len() == 0 {
        Seq::empty()
    } else if segs.len() == 1 {
        segs[0]
    } else {
        join_segments(segs.drop_last()) + seq!['/'] + segs.last()
    }
}

/// How many leading segments two sequences share, counting from `i`.
pub open spec fn common_len_from(a: Seq<Seq<char>>, b: Seq<Seq<char>>, i: nat) -> nat
    decreases a.len() - i,
{
    if i < a.len() && i < b.len() && a[i as int] == b[i as int] {
        common_len_from(a, b, i + 1)
    } else {
        i
    }
}

/// The length of the longest common prefix of two sequences.
pub open spec fn common_len(a: Seq<Seq<char>>, b: Seq<Seq<char>>) -> nat {
    common_len_from(a, b, 0)
}

/// `n` repetitions of `../`.
pub open spec fn parent_steps(n: nat) -> Seq<char>
    decreases n,
{
    if n == 0 {
        Seq::empty()
    } else {
        parent_steps((n - 1) as nat) + seq!['.', '.', '/']
    }
}

/// The directory segments of a file path.
pub open spec fn dir_of(p: Seq<Seq<char>>) -> Seq<Seq<char>> {
    p.drop_last()
}

/// How many directories a reference from `from` to `to` climbs.
pub open spec fn ups(from: Seq<Seq<char>>, to: Seq<Seq<char>>) -> nat {
    (dir_of(from).len() - common_len(dir_of(from), dir_of(to))) as nat
}

/// The segments that a reference from `from` to `to` descends through,
/// ending with the target's file name.
pub open spec fn descent(from: Seq<Seq<char>>, to: Seq<Seq<char>>) -> Seq<Seq<char>> {
    to.subrange(common_len(dir_of(from), dir_of(to)) as int, to.len() as int)
}

/// The explicit relative prefix of a reference that climbs `n` directories.
pub open spec fn relative_prefix(n: nat) -> Seq<char> {
    if n == 0 {
        seq!['.', '/']
    } else {
        parent_steps(n)
    }
}

/// The shortest relative reference from the file at `from` to the file at `to`.
pub open spec fn relative_text(from: Seq<Seq<char>>, to: Seq<Seq<char>>) -> Seq<char> {
    relative_prefix(ups(from, to)) + join_segments(descent(from, to))
}

/// Following a reference that climbs `n` directories from `dir` and then
/// descends through `down`.
pub open spec fn follow_reference(dir: Seq<Seq<char>>, n: nat, down: Seq<Seq<char>>) -> Seq<Seq<char>> {
    dir.subrange(0, dir.len() - n) + down
}

proof fn lemma_common_len_from(a: Seq<Seq<char>>, b: Seq<Seq<char>>, i: nat)
    requires
        i <= a.len(),
        i <= b.len(),
        a.subrange(0, i as int) == b.subrange(0, i as int),
    ensures
        i <= common_len_from(a, b, i) <= a.len(),
        common_len_from(a, b, i) <= b.len(),
        a.subrange(0, common_len_from(a, b, i) as int) == b.subrange(
            0,
            common_len_from(a, b, i) as int,
        ),
    decreases a.len() - i,
{
    if i < a.len() && i < b.len() && a[i as int] == b[i as int] {
        assert(a.subrange(0, i + 1 as int) =~= a.subrange(0, i as int).push(a[i as int]));
        assert(b.subrange(0, i + 1 as int) =~= b.subrange(0, i as int).push(b[i as int]));
        lemma_common_len_from(a, b, i + 1);
    }
}

/// Facts on the common prefix of two sequences.
pub proof fn lemma_common_len(a: Seq<Seq<char>>, b: Seq<Seq<char>>)
    ensures
        common_len(a, b) <= a.len(),
        common_len(a, b) <= b.len(),
        a.subrange(0, common_len(a, b) as int) == b.subrange(0, common_len(a, b) as int),
{
    assert(a.subrange(0, 0) =~= b.subrange(0, 0));
    lemma_common_len_from(a, b, 0);
}

proof fn lemma_parent_steps_start(n: nat)
    requires
        n > 0,
    ensures
        parent_steps(n).len() == 3 * n,
        parent_steps(n).subrange(0, 3) == seq!['.', '.', '/'],
    decreases n,
{
    if n > 1 {
        lemma_parent_steps_start((n - 1) as nat);
        assert(parent_steps(n).subrange(0, 3) =~= parent_steps((n - 1) as nat).subrange(0, 3));
    } else {
        assert(parent_steps(0) =~= Seq::<char>::empty());
        assert(parent_steps(n) =~= seq!['.', '.', '/']);
    }
}

/// A relative reference from one output file to another is explicitly
/// relative (it starts with `./` or `../`), and following it from the
/// directory of the first file reaches exactly the second file's path.
pub proof fn lemma_relative_reference_reaches_target(from: Seq<Seq<char>>, to: Seq<Seq<char>>)
    requires
        from.len() > 0,
        to.len() > 0,
    ensures
        relative_text(from, to).subrange(0, 2) == seq!['.', '/'] || relative_text(from, to).subrange(0, 3)
            == seq!['.', '.', '/'],
        follow_reference(dir_of(from), ups(from, to), descent(from, to)) == to,
        descent(from, to).len() > 0,
{
    let k = common_len(dir_of(from), dir_of(to));
    lemma_common_len(dir_of(from), dir_of(to));
    let n = ups(from, to);
    let text = relative_text(from, to);
    if n == 0 {
        assert(text.subrange(0, 2) =~= seq!['.', '/']);
    } else {
        lemma_parent_steps_start(n);
        assert(text.subrange(0, 3) =~= parent_steps(n).subrange(0, 3));
    }
    assert(dir_of(from).subrange(0, k as int) =~= to.subrange(0, k as int));
    assert(follow_reference(dir_of(from), n, descent(from, to)) =~= to);
}

proof fn lemma_join_push(s: Seq<Seq<char>>, k: int, j: int)
    requires
        0 <= k < j < s.len(),
    ensures
        join_segments(s.subrange(k, j + 1)) == join_segments(s.subrange(k, j)) + seq!['/'] + s[j],
{
    assert(s.subrange(k, j + 1).drop_last() =~= s.subrange(k, j));
}

/// The shortest relative specifier that reaches the output file `to` from the
/// output file `from`, with `/` separators and an explicit `./` or `../`.
pub fn get_relative_specifier(from: &Vec<String>, to: &Vec<String>) -> (r: String)
    requires
        from@.len() > 0,
        to@.len() > 0,
    ensures
        r@ == relative_text(segs_view(from@), segs_view(to@)),
{
    let ghost fv = segs_view(from@);
    let ghost tv = segs_view(to@);
    let from_dirs = from.len() - 1;
    let to_dirs = to.len() - 1;
    let mut k: usize = 0;
    while k < from_dirs && k < to_dirs && from[k] == to[k]
        invariant
            from_dirs == fv.len() - 1,
            to_dirs == tv.len() - 1,
            fv == segs_view(from@),
            tv == segs_view(to@),
            fv.len() == from@.len(),
            tv.len() == to@.len(),
            k <= from_dirs,
            k <= to_dirs,
            common_len_from(dir_of(fv), dir_of(tv), k as nat) == common_len(dir_of(fv), dir_of(tv)),
        decreases from_dirs - k,
    {
        assert(dir_of(fv)[k as int] == from@[k as int]@);
        assert(dir_of(tv)[k as int] == to@[k as int]@);
        k = k + 1;
    }
    proof {
        if k < from_dirs && k < to_dirs {
            assert(dir_of(fv)[k as int] == from@[k as int]@);
            assert(dir_of(tv)[k as int] == to@[k as int]@);
        }
        assert(common_len_from(dir_of(fv), dir_of(tv), k as nat) == k);
    }
    let n = from_dirs - k;
    let mut r = String::new();
    proof {
        reveal_strlit("./");
        reveal_strlit("../");
        reveal_strlit("/");
    }
    if n == 0 {
        r.append("./");
    } else {
        let mut i: usize = 0;
        while i < n
            invariant
                i <= n,
                r@ == parent_steps(i as nat),
            decreases n - i,
        {
            proof {
                reveal_strlit("../");
            }
            r.append("../");
            i = i + 1;
        }
    }
    let ghost prefix = r@;
    assert(prefix == relative_prefix(n as nat));
    let mut j: usize = k;
    while j < to.len()
        invariant
            k <= j <= to@.len(),
            k < to@.len(),
            tv == segs_view(to@),
            tv.len() == to@.len(),
            prefix == relative_prefix(n as nat),
            j > k ==> r@ == prefix + join_segments(tv.subrange(k as int, j as int)),
            j == k ==> r@ == prefix,
        decreases to@.len() - j,
    {
        proof {
            if j > k {
                lemma_join_push(tv, k as int, j as int);
            } else {
                assert(tv.subrange(k as int, j + 1) =~= seq![tv[j as int]]);
            }
        }
        proof {
            reveal_strlit("/");
        }
        if j > k {
            r.append("/");
        }
        r.append(to[j].as_str());
        proof {
            assert(r@ == prefix + join_segments(tv.subrange(k as int, j + 1)));
        }
        j = j + 1;
    }
    proof {
        assert(tv.subrange(k as int, to@.len() as int) == descent(fv, tv));
    }
    r
}

} // verus!
