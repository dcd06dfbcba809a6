use vstd::prelude::*;

use crate::path::segs_view;

verus! {

/// The pieces of `s` between its `/` characters, empty ones included.
pub open spec fn split_slash(s: Seq<char>) -> Seq<Seq<char>>
    decreases s.len(),
{
    if s.len() == 0 {
        seq![Seq::empty()]
    } else {
        let prev = split_slash(s.drop_last());
        if s.last() == '/' {
            prev.push(Seq::empty())
        } else {
            prev.update(prev.len() - 1, prev.last().push(s.last()))
        }
    }
}

pub proof fn lemma_split_slash_nonempty(s: Seq<char>)
    ensures
        split_slash(s).len() >= 1,
    decreases s.len(),
{
    if s.len() > 0 {
        lemma_split_slash_nonempty(s.drop_last());
    }
}

pub open spec fn ends_with(s: Seq<char>, suffix: Seq<char>) -> bool {
    s.len() >= suffix.len() && s.subrange(s.len() - suffix.len(), s.len() as int) == suffix
}

pub open spec fn starts_with(s: Seq<char>, prefix: Seq<char>) -> bool {
    s.len() >= prefix.len() && s.subrange(0, prefix.len() as int) == prefix
}

/// The extensions of source files that become `.js` in the output.
pub open spec fn source_extensions() -> Seq<Seq<char>> {
    seq![
        seq!['.', 't', 's', 'x'],
        seq!['.', 'j', 's', 'x'],
        seq!['.', 'm', 't', 's'],
        seq!['.', 'm', 'j', 's'],
        seq!['.', 't', 's'],
    ]
}

pub open spec fn declaration_extension() -> Seq<char> {
    seq!['.', 'd', '.', 't', 's']
}

pub open spec fn js_extension() -> Seq<char> {
    seq!['.', 'j', 's']
}

/// The first source extension that `name` ends with, by its index.
pub open spec fn source_extension_of(name: Seq<char>, from: nat) -> Option<nat>
    decreases source_extensions().len() - from,
{
    if from >= source_extensions().len() {
        None
    } else if ends_with(name, source_extensions()[from as int]) {
        Some(from)
    } else {
        source_extension_of(name, from + 1)
    }
}

/// A file name as it is written in the output: a declaration file keeps its
/// name; a source extension becomes `.js`; any other name stays.
pub open spec fn output_file_name(name: Seq<char>) -> Seq<char> {
    if ends_with(name, declaration_extension()) {
        name
    } else {
        match source_extension_of(name, 0) {
            Some(k) => name.subrange(0, name.len() - source_extensions()[k as int].len()) + js_extension(),
            None => name,
        }
    }
}

pub open spec fn file_prefix() -> Seq<char> {
    seq!['f', 'i', 'l', 'e', ':', '/', '/', '/']
}

pub open spec fn https_prefix() -> Seq<char> {
    seq!['h', 't', 't', 'p', 's', ':', '/', '/']
}

pub open spec fn http_prefix() -> Seq<char> {
    seq!['h', 't', 't', 'p', ':', '/', '/']
}

pub open spec fn src_dir() -> Seq<char> {
    seq!['s', 'r', 'c']
}

pub open spec fn https_dir() -> Seq<char> {
    seq!['h', 't', 't', 'p', 's']
}

pub open spec fn http_dir() -> Seq<char> {
    seq!['h', 't', 't', 'p']
}

pub open spec fn deps_dir() -> Seq<char> {
    seq!['d', 'e', 'p', 's']
}

/// The segments of a specifier's output path before the file name is
/// normalized: a local file goes under `src`, then its path; a remote module
/// under `deps`, then its scheme, its host and its path. Other schemes have
/// none.
pub open spec fn raw_output_segments(s: Seq<char>) -> Option<Seq<Seq<char>>> {
    if starts_with(s, file_prefix()) {
        Some(seq![src_dir()] + split_slash(s.subrange(file_prefix().len() as int, s.len() as int)))
    } else if starts_with(s, https_prefix()) {
        Some(seq![deps_dir(), https_dir()] + split_slash(s.subrange(https_prefix().len() as int, s.len() as int)))
    } else if starts_with(s, http_prefix()) {
        Some(seq![deps_dir(), http_dir()] + split_slash(s.subrange(http_prefix().len() as int, s.len() as int)))
    } else {
        None
    }
}

/// The output path of a specifier: its segments with the file name
/// normalized, when it has a supported scheme and no empty segment.
pub open spec fn output_path(s: Seq<char>) -> Option<Seq<Seq<char>>> {
    match raw_output_segments(s) {
        Some(segs) => if forall|i: int| 0 <= i < segs.len() ==> (#[trigger] segs[i]).len() > 0 {
            Some(segs.update(segs.len() - 1, output_file_name(segs.last())))
        } else {
            None
        },
        None => None,
    }
}

/// The kind of place an output path is in: 0 for a local file, 1 for an
/// https module, 2 for an http module.
pub open spec fn origin(s: Seq<char>) -> int {
    if starts_with(s, file_prefix()) {
        0
    } else if starts_with(s, https_prefix()) {
        1
    } else {
        2
    }
}

/// Local files and remote modules never share an output path, nor do an
/// https module and an http one: the first segments of a path tell them
/// apart.
pub proof fn lemma_origins_kept_apart(a: Seq<char>, b: Seq<char>)
    requires
        output_path(a) is Some,
        output_path(b) is Some,
        origin(a) != origin(b),
    ensures
        output_path(a) != output_path(b),
{
    let pa = output_path(a)->0;
    let pb = output_path(b)->0;
    lemma_split_slash_nonempty(a.subrange(7, a.len() as int));
    lemma_split_slash_nonempty(b.subrange(7, b.len() as int));
    if a.len() >= 8 {
        lemma_split_slash_nonempty(a.subrange(8, a.len() as int));
    }
    if b.len() >= 8 {
        lemma_split_slash_nonempty(b.subrange(8, b.len() as int));
    }
    let ra = raw_output_segments(a)->0;
    let rb = raw_output_segments(b)->0;
    assert(pa[0] == ra[0]);
    assert(pb[0] == rb[0]);
    assert(pa[1] == ra[1] || origin(a) == 0);
    assert(pb[1] == rb[1] || origin(b) == 0);
    if pa == pb {
        if origin(a) == 0 || origin(b) == 0 {
            assert(src_dir() != deps_dir()) by {
                assert(src_dir()[0] != deps_dir()[0]);
            }
        } else {
            assert(https_dir() != http_dir()) by {
                assert(https_dir().len() != http_dir().len());
            }
        }
    }
}

fn str_starts_with(s: &str, n: usize, prefix: &str) -> (r: bool)
    requires
        n == s@.len(),
    ensures
        r == starts_with(s@, prefix@),
{
    let m = prefix.unicode_len();
    if m > n {
        return false;
    }
    let mut i: usize = 0;
    while i < m
        invariant
            m == prefix@.len(),
            m <= n,
            n == s@.len(),
            i <= m,
            forall|j: int| 0 <= j < i ==> s@[j] == prefix@[j],
        decreases m - i,
    {
        if s.get_char(i) != prefix.get_char(i) {
            assert(s@.subrange(0, m as int)[i as int] != prefix@[i as int]);
            return false;
        }
        i = i + 1;
    }
    assert(s@.subrange(0, m as int) =~= prefix@);
    true
}

fn str_ends_with(s: &str, n: usize, suffix: &str) -> (r: bool)
    requires
        n == s@.len(),
    ensures
        r == ends_with(s@, suffix@),
{
    let m = suffix.unicode_len();
    if m > n {
        return false;
    }
    let start = n - m;
    let mut i: usize = 0;
    while i < m
        invariant
            m == suffix@.len(),
            m <= n,
            start == n - m,
            n == s@.len(),
            i <= m,
            forall|j: int| 0 <= j < i ==> s@[start + j] == suffix@[j],
        decreases m - i,
    {
        if s.get_char(start + i) != suffix.get_char(i) {
            assert(s@.subrange(start as int, n as int)[i as int] != suffix@[i as int]);
            return false;
        }
        i = i + 1;
    }
    assert(s@.subrange(start as int, n as int) =~= suffix@);
    true
}

fn normalize_file_name(name: &str) -> (r: String)
    ensures
        r@ == output_file_name(name@),
{
    let n = name.unicode_len();
    proof {
        reveal_strlit(".d.ts");
        reveal_strlit(".tsx");
        reveal_strlit(".jsx");
        reveal_strlit(".mts");
        reveal_strlit(".mjs");
        reveal_strlit(".ts");
        reveal_strlit(".js");
        assert(".d.ts"@ =~= declaration_extension());
        assert(".tsx"@ =~= source_extensions()[0]);
        assert(".jsx"@ =~= source_extensions()[1]);
        assert(".mts"@ =~= source_extensions()[2]);
        assert(".mjs"@ =~= source_extensions()[3]);
        assert(".ts"@ =~= source_extensions()[4]);
        assert(".js"@ =~= js_extension());
    }
    if str_ends_with(name, n, ".d.ts") {
        return name.to_owned();
    }
    let mut k: usize = 0;
    let mut ext_len: usize = 0;
    let mut found = false;
    if str_ends_with(name, n, ".tsx") {
        found = true;
        ext_len = 4;
    } else if str_ends_with(name, n, ".jsx") {
        k = 1;
        found = true;
        ext_len = 4;
    } else if str_ends_with(name, n, ".mts") {
        k = 2;
        found = true;
        ext_len = 4;
    } else if str_ends_with(name, n, ".mjs") {
        k = 3;
        found = true;
        ext_len = 4;
    } else if str_ends_with(name, n, ".ts") {
        k = 4;
        found = true;
        ext_len = 3;
    }
    proof {
        reveal_with_fuel(source_extension_of, 6);
    }
    if !found {
        return name.to_owned();
    }
    assert(source_extension_of(name@, 0) == Some(k as nat));
    let mut r = name.substring_char(0, n - ext_len).to_owned();
    r.append(".js");
    r
}

fn push_segments(out: &mut Vec<String>, s: &str, from: usize, n: usize)
    requires
        n == s@.len(),
        from <= n,
    ensures
        segs_view(final(out)@) == segs_view(old(out)@) + split_slash(s@.subrange(from as int, n as int)),
{
    let ghost base = segs_view(out@);
    let ghost t = s@.subrange(from as int, n as int);
    let mut seg_start: usize = from;
    let mut i: usize = from;
    assert(t.subrange(0, 0) =~= Seq::<char>::empty());
    assert(s@.subrange(from as int, from as int) =~= Seq::<char>::empty());
    assert(split_slash(Seq::<char>::empty()) == seq![Seq::<char>::empty()]);
    while i < n
        invariant
            n == s@.len(),
            from <= seg_start <= i <= n,
            t == s@.subrange(from as int, n as int),
            segs_view(out@) + seq![s@.subrange(seg_start as int, i as int)] == base + split_slash(
                t.subrange(0, i - from),
            ),
        decreases n - i,
    {
        let ghost prev = t.subrange(0, i - from);
        let ghost next = t.subrange(0, i + 1 - from);
        assert(next.drop_last() =~= prev);
        assert(next.last() == s@[i as int]);
        proof {
            lemma_split_slash_nonempty(prev);
        }
        let ghost before = segs_view(out@);
        let ghost cur = s@.subrange(seg_start as int, i as int);
        let ghost sp = split_slash(prev);
        assert(before + seq![cur] == base + sp);
        assert((before + seq![cur]).len() == (base + sp).len());
        assert((before + seq![cur])[before.len() as int] == cur);
        assert(sp.last() == cur) by {
            assert((base + sp)[base.len() + sp.len() - 1] == sp.last());
        }
        assert(before =~= base + sp.drop_last()) by {
            assert forall|j: int| 0 <= j < before.len() implies before[j] == (base + sp.drop_last())[j] by {
                assert((before + seq![cur])[j] == (base + sp)[j]);
            }
        }
        if s.get_char(i) == '/' {
            let seg = s.substring_char(seg_start, i).to_owned();
            out.push(seg);
            assert(segs_view(out@) =~= before.push(seg@));
            seg_start = i + 1;
            assert(s@.subrange(seg_start as int, i + 1) =~= Seq::<char>::empty());
            assert(split_slash(next) == sp.push(Seq::<char>::empty()));
            assert(sp =~= sp.drop_last().push(cur));
            assert(segs_view(out@) + seq![s@.subrange(seg_start as int, i + 1)] =~= base + split_slash(next));
        } else {
            assert(s@.subrange(seg_start as int, i + 1) =~= cur.push(s@[i as int]));
            assert(split_slash(next) == sp.update(sp.len() - 1, cur.push(s@[i as int])));
            assert(sp.update(sp.len() - 1, cur.push(s@[i as int])) =~= sp.drop_last().push(cur.push(s@[i as int])));
            assert(segs_view(out@) + seq![s@.subrange(seg_start as int, i + 1)] =~= base + split_slash(next));
        }
        i = i + 1;
    }
    let seg = s.substring_char(seg_start, n).to_owned();
    let ghost before = out@;
    out.push(seg);
    assert(segs_view(out@) =~= segs_view(before) + seq![seg@]);
    assert(t.subrange(0, n - from) =~= t);
}

/// The output path of a specifier: `file:///a/b.ts` goes to `a/b.js`, and
/// `https://host/a/b.ts` to `deps/host/a/b.js`. `None` for another scheme or
/// an empty segment.
pub fn get_output_path(specifier: &String) -> (r: Option<Vec<String>>)
    ensures
        match r {
            Some(p) => output_path(specifier@) == Some(segs_view(p@)),
            None => output_path(specifier@) is None,
        },
{
    let s = specifier.as_str();
    let n = s.unicode_len();
    proof {
        reveal_strlit("file:///");
        reveal_strlit("https://");
        reveal_strlit("http://");
        reveal_strlit("deps");
        reveal_strlit("src");
        reveal_strlit("https");
        reveal_strlit("http");
    }
    let mut segs: Vec<String> = Vec::new();
    proof {
        assert("file:///"@ =~= file_prefix());
        assert("https://"@ =~= https_prefix());
        assert("http://"@ =~= http_prefix());
        assert("deps"@ =~= deps_dir());
        assert("src"@ =~= src_dir());
        assert("https"@ =~= https_dir());
        assert("http"@ =~= http_dir());
    }
    if str_starts_with(s, n, "file:///") {
        segs.push("src".to_owned());
        assert(segs_view(segs@) =~= seq![src_dir()]);
        push_segments(&mut segs, s, 8, n);
    } else if str_starts_with(s, n, "https://") {
        segs.push("deps".to_owned());
        segs.push("https".to_owned());
        assert(segs_view(segs@) =~= seq![deps_dir(), https_dir()]);
        push_segments(&mut segs, s, 8, n);
    } else if str_starts_with(s, n, "http://") {
        segs.push("deps".to_owned());
        segs.push("http".to_owned());
        assert(segs_view(segs@) =~= seq![deps_dir(), http_dir()]);
        push_segments(&mut segs, s, 7, n);
    } else {
        return None;
    }
    let ghost raw = segs_view(segs@);
    assert(raw_output_segments(specifier@) == Some(raw));
    proof {
        if n >= 8 {
            lemma_split_slash_nonempty(s@.subrange(8, n as int));
        }
        if n >= 7 {
            lemma_split_slash_nonempty(s@.subrange(7, n as int));
        }
    }
    let count = segs.len();
    let mut i: usize = 0;
    while i < count
        invariant
            count == segs@.len(),
            raw == segs_view(segs@),
            raw_output_segments(specifier@) == Some(raw),
            i <= count,
            forall|j: int| 0 <= j < i ==> (#[trigger] raw[j]).len() > 0,
        decreases count - i,
    {
        if segs[i].as_str().unicode_len() == 0 {
            assert(raw[i as int].len() == 0);
            return None;
        }
        i = i + 1;
    }
    let last = segs.pop().unwrap();
    let name = normalize_file_name(last.as_str());
    segs.push(name);
    assert(segs_view(segs@) =~= raw.update(raw.len() - 1, output_file_name(raw.last())));
    Some(segs)
}

} // verus!
