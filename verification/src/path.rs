//! Paths as text: segments, components, joining and containment.
//!
//! A path is a string whose segments are separated by `/`. Its components are
//! what is left of the segments once empty segments and `.` segments are
//! dropped, with a `/` in front where the path is absolute and a `.` in front
//! where it begins with a `.` segment. A `..` segment is kept as a component:
//! nothing here resolves it.

use vstd::prelude::*;
use crate::text::{chars_of, copy_range, has_prefix, push_all, same_text, string_of, texts};

verus! {

/// The character that separates the segments of a path.
pub const SEPARATOR: char = '/';

/// The text `/`, which stands for the root as a component.
pub open spec fn root_mark() -> Seq<char> {
    seq![SEPARATOR]
}

/// The text `.`.
pub open spec fn dot() -> Seq<char> {
    seq!['.']
}

/// The text `..`.
pub open spec fn dot_dot() -> Seq<char> {
    seq!['.', '.']
}

/// The pieces of `s` between separators, empty ones included. A text without a
/// separator is one segment (`lemma_segments_plain`), and the segments of two
/// texts with a separator between them are those of the first followed by
/// those of the second (`lemma_segments_concat`).
pub open spec fn segments(s: Seq<char>) -> Seq<Seq<char>>
    decreases s.len(),
{
    if s.len() == 0 {
        seq![Seq::<char>::empty()]
    } else {
        let before = segments(s.drop_last());
        if s.last() == SEPARATOR {
            before.push(Seq::<char>::empty())
        } else {
            before.drop_last().push(before.last().push(s.last()))
        }
    }
}

/// Whether some segment of `p` is `..`.
pub open spec fn has_parent_segment(p: Seq<char>) -> bool {
    segments(p).contains(dot_dot())
}

/// Whether `p` begins at the root.
pub open spec fn is_absolute(p: Seq<char>) -> bool {
    p.len() > 0 && p[0] == SEPARATOR
}

/// Whether a segment names something: it is neither empty nor `.`.
pub open spec fn is_name(segment: Seq<char>) -> bool {
    segment.len() > 0 && segment != dot()
}

/// `is_name` as a predicate value.
pub open spec fn names_only() -> spec_fn(Seq<char>) -> bool {
    |segment: Seq<char>| is_name(segment)
}

/// What stands in front of the names of `p`: the root mark where `p` is
/// absolute, a `.` where its first segment is `.`, else nothing.
pub open spec fn lead(p: Seq<char>) -> Seq<Seq<char>> {
    if is_absolute(p) {
        seq![root_mark()]
    } else if segments(p)[0] == dot() {
        seq![dot()]
    } else {
        Seq::empty()
    }
}

/// The components of `p`.
pub open spec fn components(p: Seq<char>) -> Seq<Seq<char>> {
    lead(p) + segments(p).filter(names_only())
}

/// Whether the components of `base` are the first components of `path`.
pub open spec fn path_starts_with(path: Seq<char>, base: Seq<char>) -> bool {
    components(base).is_prefix_of(components(path))
}

/// `rel` adjoined to `root`: an absolute `rel` replaces `root`; otherwise the
/// two are put together, with a separator between them unless `root` is empty
/// or already ends in one.
pub open spec fn joined(root: Seq<char>, rel: Seq<char>) -> Seq<char> {
    if is_absolute(rel) {
        rel
    } else if root.len() == 0 || root.last() == SEPARATOR {
        root + rel
    } else {
        root + root_mark() + rel
    }
}

/// The path that a request names under `root`: `root` itself where the request
/// names nothing.
pub open spec fn request_target(root: Seq<char>, requested: Option<Seq<char>>) -> Seq<char> {
    match requested {
        Some(rel) => joined(root, rel),
        None => root,
    }
}

/// The parts put together with one separator between each two.
pub open spec fn slash_joined(parts: Seq<Seq<char>>) -> Seq<char>
    decreases parts.len(),
{
    if parts.len() == 0 {
        Seq::empty()
    } else if parts.len() == 1 {
        parts[0]
    } else {
        slash_joined(parts.drop_last()) + root_mark() + parts.last()
    }
}

/// The path that has the given components.
pub open spec fn assembled(parts: Seq<Seq<char>>) -> Seq<char> {
    if parts.len() > 0 && parts[0] == root_mark() {
        root_mark() + slash_joined(parts.skip(1))
    } else {
        slash_joined(parts)
    }
}

/// The components of `path` that follow those of `base`.
pub open spec fn below(path: Seq<char>, base: Seq<char>) -> Seq<Seq<char>> {
    components(path).skip(components(base).len() as int)
}

/// Whether the text of `path` is that of `base`, or that of `base` followed by
/// more of the path: `base` begins `path`, and where `base` is not empty and
/// does not end in a separator, what follows it in `path` begins with one.
pub open spec fn has_base(path: Seq<char>, base: Seq<char>) -> bool {
    &&& base.is_prefix_of(path)
    &&& (base.len() == 0 || base.last() == SEPARATOR || path.len() == base.len()
        || path[base.len() as int] == SEPARATOR)
}

/// Whether nothing has to be dropped between `base` and what follows it in
/// `path`: `base` is empty or ends in a separator, or nothing follows.
pub open spec fn base_is_closed(path: Seq<char>, base: Seq<char>) -> bool {
    base.len() == 0 || base.last() == SEPARATOR || path.len() == base.len()
}

/// The text of `path` after `base`, without the separator that parts the two.
/// Nothing else of the text is changed.
pub open spec fn text_after_base(path: Seq<char>, base: Seq<char>) -> Seq<char> {
    if base_is_closed(path, base) {
        path.skip(base.len() as int)
    } else {
        path.skip(base.len() as int + 1)
    }
}

/// Whether a component is an ordinary name: not the root mark, `.` or `..`.
pub open spec fn is_normal(component: Seq<char>) -> bool {
    component != root_mark() && component != dot() && component != dot_dot()
}

/// The last component of `p` where it is an ordinary name.
pub open spec fn base_name(p: Seq<char>) -> Option<Seq<char>> {
    let parts = components(p);
    if parts.len() > 0 && is_normal(parts.last()) {
        Some(parts.last())
    } else {
        None
    }
}

/// A path always has at least one segment.
pub proof fn lemma_segments_len(s: Seq<char>)
    ensures
        segments(s).len() >= 1,
    decreases s.len(),
{
    if s.len() > 0 {
        lemma_segments_len(s.drop_last());
    }
}

/// A text without a separator is its own single segment.
pub proof fn lemma_segments_plain(s: Seq<char>)
    requires
        !s.contains(SEPARATOR),
    ensures
        segments(s) == seq![s],
    decreases s.len(),
{
    if s.len() == 0 {
        assert(s == Seq::<char>::empty());
    } else {
        let init = s.drop_last();
        assert forall|i: int| 0 <= i < init.len() implies init[i] != SEPARATOR by {
            assert(s[i] == init[i]);
            assert(s.contains(s[i]));
        }
        assert(s.contains(s.last()));
        lemma_segments_plain(init);
        assert(init.push(s.last()) == s);
        assert(seq![init].drop_last().push(init.push(s.last())) == seq![s]);
    }
}

/// A separator between two texts keeps their segments apart: the segments of
/// the whole are those of the first followed by those of the second.
pub proof fn lemma_segments_concat(a: Seq<char>, b: Seq<char>)
    ensures
        segments(a + root_mark() + b) == segments(a) + segments(b),
    decreases b.len(),
{
    lemma_segments_len(a);
    let whole = a + root_mark() + b;
    if b.len() == 0 {
        assert(whole.drop_last() == a);
        assert(segments(a).push(Seq::<char>::empty()) == segments(a) + segments(b));
    } else {
        let init = b.drop_last();
        lemma_segments_concat(a, init);
        lemma_segments_len(init);
        assert(whole.drop_last() == a + root_mark() + init);
        assert(whole.last() == b.last());
        let sa = segments(a);
        let si = segments(init);
        if b.last() == SEPARATOR {
            assert((sa + si).push(Seq::<char>::empty()) == sa + si.push(Seq::<char>::empty()));
        } else {
            let grown = si.last().push(b.last());
            assert((sa + si).last() == si.last());
            assert((sa + si).drop_last().push(grown) == sa + si.drop_last().push(grown));
        }
    }
}

/// No segment holds a separator.
pub proof fn lemma_segments_hold_no_separator(s: Seq<char>, i: int)
    requires
        0 <= i < segments(s).len(),
    ensures
        !segments(s)[i].contains(SEPARATOR),
    decreases s.len(),
{
    if s.len() == 0 {
    } else {
        let before = segments(s.drop_last());
        lemma_segments_len(s.drop_last());
        if s.last() == SEPARATOR {
            if i < before.len() {
                lemma_segments_hold_no_separator(s.drop_last(), i);
            }
        } else {
            if i < before.len() - 1 {
                lemma_segments_hold_no_separator(s.drop_last(), i);
            } else {
                lemma_segments_hold_no_separator(s.drop_last(), before.len() - 1);
                let grown = before.last().push(s.last());
                assert forall|j: int| 0 <= j < grown.len() implies grown[j] != SEPARATOR by {
                    if j < before.last().len() {
                        assert(before.last().contains(before.last()[j]));
                    }
                }
            }
        }
    }
}

/// Adjoining a request to a root loses none of the request's `..` segments.
pub proof fn lemma_join_keeps_parent_segment(root: Seq<char>, rel: Seq<char>)
    requires
        has_parent_segment(rel),
    ensures
        has_parent_segment(joined(root, rel)),
{
    let idx = choose|i: int| 0 <= i < segments(rel).len() && segments(rel)[i] == dot_dot();
    if is_absolute(rel) {
    } else if root.len() == 0 {
        assert(root + rel == rel);
    } else if root.last() == SEPARATOR {
        let head = root.drop_last();
        assert(root + rel == head + root_mark() + rel);
        lemma_segments_concat(head, rel);
        assert((segments(head) + segments(rel))[segments(head).len() + idx] == dot_dot());
    } else {
        lemma_segments_concat(root, rel);
        assert((segments(root) + segments(rel))[segments(root).len() + idx] == dot_dot());
    }
}

/// Splits a path at its separators.
pub fn split_segments(path: &Vec<char>) -> (out: Vec<Vec<char>>)
    ensures
        texts(out@) == segments(path@),
{
    let mut done: Vec<Vec<char>> = Vec::new();
    let mut current: Vec<char> = Vec::new();
    let mut i: usize = 0;
    while i < path.len()
        invariant
            i <= path.len(),
            texts(done@).push(current@) == segments(path@.take(i as int)),
        decreases path.len() - i,
    {
        let ghost before = segments(path@.take(i as int));
        proof {
            assert(path@.take(i + 1).drop_last() == path@.take(i as int));
            assert(before.last() == current@);
            assert(before.drop_last() == texts(done@));
        }
        if path[i] == SEPARATOR {
            done.push(current);
            current = Vec::new();
            assert(texts(done@) == before);
        } else {
            current.push(path[i]);
        }
        i += 1;
    }
    assert(path@.take(path.len() as int) == path@);
    done.push(current);
    done
}

/// Whether `segment` is the text `.`.
pub fn is_dot(segment: &Vec<char>) -> (r: bool)
    ensures
        r == (segment@ == dot()),
{
    let r = segment.len() == 1 && segment[0] == '.';
    proof {
        if r {
            assert(segment@ == dot());
        }
    }
    r
}

/// Whether `segment` is the text `..`.
pub fn is_dot_dot(segment: &Vec<char>) -> (r: bool)
    ensures
        r == (segment@ == dot_dot()),
{
    let r = segment.len() == 2 && segment[0] == '.' && segment[1] == '.';
    proof {
        if r {
            assert(segment@ == dot_dot());
        }
    }
    r
}

/// Whether `component` is the root mark.
pub fn is_root_mark(component: &Vec<char>) -> (r: bool)
    ensures
        r == (component@ == root_mark()),
{
    let r = component.len() == 1 && component[0] == SEPARATOR;
    proof {
        if r {
            assert(component@ == root_mark());
        }
    }
    r
}

/// Whether some segment of `path` is `..`.
pub fn holds_parent_segment(path: &Vec<char>) -> (r: bool)
    ensures
        r == has_parent_segment(path@),
{
    let segs = split_segments(path);
    let mut i: usize = 0;
    while i < segs.len()
        invariant
            i <= segs.len(),
            texts(segs@) == segments(path@),
            forall|j: int| 0 <= j < i ==> segments(path@)[j] != dot_dot(),
        decreases segs.len() - i,
    {
        assert(texts(segs@)[i as int] == segs@[i as int]@);
        if is_dot_dot(&segs[i]) {
            return true;
        }
        i += 1;
    }
    false
}

/// Splits a path into its components.
pub fn components_of(path: &Vec<char>) -> (out: Vec<Vec<char>>)
    ensures
        texts(out@) == components(path@),
{
    broadcast use vstd::std_specs::vec::axiom_spec_into_iter;

    let segs = split_segments(path);
    let ghost all = segs@;
    proof {
        lemma_segments_len(path@);
        assert(texts(all)[0] == all[0]@);
        reveal(Seq::filter);
    }
    let mut out: Vec<Vec<char>> = Vec::new();
    if path.len() > 0 && path[0] == SEPARATOR {
        let mut mark: Vec<char> = Vec::new();
        mark.push(SEPARATOR);
        assert(mark@ == root_mark());
        out.push(mark);
    } else if is_dot(&segs[0]) {
        let mut mark: Vec<char> = Vec::new();
        mark.push('.');
        assert(mark@ == dot());
        out.push(mark);
    }
    assert(texts(out@) == lead(path@) + texts(all.take(0)).filter(names_only()));
    for seg in it: segs
        invariant
            it.seq() == all,
            texts(all) == segments(path@),
            texts(out@) == lead(path@) + texts(all.take(it.index())).filter(names_only()),
    {
        let ghost seen = texts(all.take(it.index()));
        proof {
            assert(texts(all.take(it.index() + 1)) == seen.push(seg@));
            seen.lemma_filter_push(seg@, names_only());
        }
        if seg.len() > 0 && !is_dot(&seg) {
            let ghost kept = texts(out@);
            let ghost name = seg@;
            out.push(seg);
            assert(texts(out@) == kept.push(name));
            assert(kept.push(name) == lead(path@) + seen.filter(names_only()).push(name));
        }
    }
    assert(all.take(all.len() as int) == all);
    out
}

/// Whether the first parts of `whole` are the parts of `first`.
pub fn begins_with(whole: &Vec<Vec<char>>, first: &Vec<Vec<char>>) -> (r: bool)
    ensures
        r == texts(first@).is_prefix_of(texts(whole@)),
{
    if first.len() > whole.len() {
        return false;
    }
    let ghost head = texts(whole@).subrange(0, first.len() as int);
    let mut i: usize = 0;
    while i < first.len()
        invariant
            i <= first.len() <= whole.len(),
            head == texts(whole@).subrange(0, first.len() as int),
            forall|j: int| 0 <= j < i ==> texts(first@)[j] == head[j],
        decreases first.len() - i,
    {
        if !same_text(&first[i], &whole[i]) {
            assert(texts(first@)[i as int] != head[i as int]);
            return false;
        }
        i += 1;
    }
    assert(texts(first@) =~= head);
    true
}

/// The parts from index `from` on, put together with one separator between
/// each two.
pub fn slash_join(parts: &Vec<Vec<char>>, from: usize) -> (out: Vec<char>)
    requires
        from <= parts.len(),
    ensures
        out@ == slash_joined(texts(parts@).skip(from as int)),
{
    let ghost tail = texts(parts@).skip(from as int);
    let mut out: Vec<char> = Vec::new();
    let mut i: usize = from;
    while i < parts.len()
        invariant
            from <= i <= parts.len(),
            tail == texts(parts@).skip(from as int),
            out@ == slash_joined(tail.take(i - from)),
        decreases parts.len() - i,
    {
        proof {
            let next = tail.take(i - from + 1);
            assert(next.drop_last() == tail.take(i - from));
            assert(next.last() == parts@[i as int]@);
        }
        if i > from {
            out.push(SEPARATOR);
        }
        push_all(&mut out, &parts[i]);
        i += 1;
    }
    assert(tail.take(parts.len() - from) == tail);
    out
}

/// The path that has the components of `parts` from index `from` on.
pub fn assemble(parts: &Vec<Vec<char>>, from: usize) -> (out: Vec<char>)
    requires
        from <= parts.len(),
    ensures
        out@ == assembled(texts(parts@).skip(from as int)),
{
    let ghost tail = texts(parts@).skip(from as int);
    if from < parts.len() && is_root_mark(&parts[from]) {
        let mut out: Vec<char> = Vec::new();
        out.push(SEPARATOR);
        push_all(&mut out, &slash_join(parts, from + 1));
        proof {
            assert(tail.skip(1) == texts(parts@).skip(from + 1));
            assert(tail[0] == parts@[from as int]@);
        }
        out
    } else {
        proof {
            if from < parts.len() {
                assert(tail[0] == parts@[from as int]@);
            }
        }
        slash_join(parts, from)
    }
}

/// `rel` adjoined to `root`.
pub fn join_chars(root: &Vec<char>, rel: &Vec<char>) -> (out: Vec<char>)
    ensures
        out@ == joined(root@, rel@),
{
    let mut out: Vec<char> = Vec::new();
    if !(rel.len() > 0 && rel[0] == SEPARATOR) {
        push_all(&mut out, root);
        if root.len() > 0 && root[root.len() - 1] != SEPARATOR {
            out.push(SEPARATOR);
        }
    }
    push_all(&mut out, rel);
    out
}

/// The path that a request names under `root`.
pub fn join_request(root: &str, requested: Option<&str>) -> (out: String)
    ensures
        out@ == request_target(root@, crate::text::opt_text(requested)),
{
    let root_chars = chars_of(root);
    match requested {
        Some(rel) => {
            let rel_chars = chars_of(rel);
            let out = join_chars(&root_chars, &rel_chars);
            string_of(&out)
        },
        None => string_of(&root_chars),
    }
}

/// Whether some segment of `path` is `..`.
pub fn has_parent_dir(path: &str) -> (r: bool)
    ensures
        r == has_parent_segment(path@),
{
    let chars = chars_of(path);
    holds_parent_segment(&chars)
}

/// Whether `path` lies at or under `base`, component by component.
pub fn starts_with(path: &str, base: &str) -> (r: bool)
    ensures
        r == path_starts_with(path@, base@),
{
    let path_parts = components_of(&chars_of(path));
    let base_parts = components_of(&chars_of(base));
    begins_with(&path_parts, &base_parts)
}

/// Whether the text of `path` is that of `base`, or that of `base` followed
/// by more of the path.
pub fn has_base_dir(path: &str, base: &str) -> (r: bool)
    ensures
        r == has_base(path@, base@),
{
    let path_chars = chars_of(path);
    let base_chars = chars_of(base);
    if !has_prefix(&path_chars, &base_chars) {
        return false;
    }
    let n = base_chars.len();
    n == 0 || base_chars[n - 1] == SEPARATOR || path_chars.len() == n || path_chars[n]
        == SEPARATOR
}

/// The text of `path` after `base`, without the separator that parts the two.
pub fn strip_base(path: &Vec<char>, base: &Vec<char>) -> (rest: Vec<char>)
    requires
        has_base(path@, base@),
    ensures
        rest@ == text_after_base(path@, base@),
{
    let n = base.len();
    if n == 0 || base[n - 1] == SEPARATOR || path.len() == n {
        copy_range(path, n, path.len())
    } else {
        copy_range(path, n + 1, path.len())
    }
}

/// The last component of `path` where it is an ordinary name.
pub fn file_name(path: &str) -> (r: Option<String>)
    ensures
        match r {
            Some(name) => base_name(path@) == Some(name@),
            None => base_name(path@) is None,
        },
{
    let parts = components_of(&chars_of(path));
    if parts.len() == 0 {
        return None;
    }
    let last = &parts[parts.len() - 1];
    assert(texts(parts@).last() == last@);
    if is_root_mark(last) || is_dot(last) || is_dot_dot(last) {
        None
    } else {
        Some(string_of(last))
    }
}

} // verus!
