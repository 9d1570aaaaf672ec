//! Facts about paths: what the components of a path look like, that components
//! put together and taken apart again are the same components, and what the
//! components of a joined path are.

use vstd::prelude::*;
use crate::path::{
    assembled, below, components, dot, has_base, is_absolute, is_name, joined, lead,
    lemma_segments_concat, lemma_segments_hold_no_separator, lemma_segments_len,
    lemma_segments_plain, names_only, path_starts_with, root_mark, segments, slash_joined,
    text_after_base, SEPARATOR,
};

verus! {

/// Whether a text holds no separator.
pub open spec fn is_plain(part: Seq<char>) -> bool {
    !part.contains(SEPARATOR)
}

/// Whether each part is plain.
pub open spec fn are_plain(parts: Seq<Seq<char>>) -> bool {
    forall|i: int| 0 <= i < parts.len() ==> is_plain(#[trigger] parts[i])
}

/// Whether each part is a name that holds no separator.
pub open spec fn are_names(parts: Seq<Seq<char>>) -> bool {
    forall|i: int| 0 <= i < parts.len() ==> is_name(#[trigger] parts[i]) && is_plain(parts[i])
}

/// Whether the parts have the shape of the components of a path: names, with
/// at most a root mark or a `.` in front of them.
pub open spec fn well_formed(parts: Seq<Seq<char>>) -> bool {
    ||| are_names(parts)
    ||| parts.len() > 0 && (parts[0] == root_mark() || parts[0] == dot()) && are_names(
        parts.skip(1),
    )
}

/// Nothing is left of an empty segment when names are picked.
pub proof fn lemma_no_name_in_empty_segment()
    ensures
        seq![Seq::<char>::empty()].filter(names_only()) == Seq::<Seq<char>>::empty(),
        seq![dot()].filter(names_only()) == Seq::<Seq<char>>::empty(),
{
    let none = Seq::<Seq<char>>::empty();
    reveal(Seq::filter);
    assert(none.filter(names_only()) == none);
    none.lemma_filter_push(Seq::<char>::empty(), names_only());
    assert(none.push(Seq::<char>::empty()) == seq![Seq::<char>::empty()]);
    none.lemma_filter_push(dot(), names_only());
    assert(none.push(dot()) == seq![dot()]);
}

/// Picking the names among names leaves them all.
pub proof fn lemma_filter_keeps_names(parts: Seq<Seq<char>>)
    requires
        are_names(parts),
    ensures
        parts.filter(names_only()) == parts,
    decreases parts.len(),
{
    reveal(Seq::filter);
    if parts.len() > 0 {
        let init = parts.drop_last();
        assert forall|i: int| 0 <= i < init.len() implies is_name(#[trigger] init[i]) && is_plain(
            init[i],
        ) by {
            assert(init[i] == parts[i]);
        }
        lemma_filter_keeps_names(init);
        assert(is_name(parts[parts.len() - 1]));
        assert(init.push(parts.last()) == parts);
    }
}

/// Plain parts, joined by separators, are the segments of the result.
pub proof fn lemma_segments_of_slash_joined(parts: Seq<Seq<char>>)
    requires
        parts.len() > 0,
        are_plain(parts),
    ensures
        segments(slash_joined(parts)) == parts,
    decreases parts.len(),
{
    assert(is_plain(parts[parts.len() - 1]));
    if parts.len() == 1 {
        lemma_segments_plain(parts[0]);
        assert(seq![parts[0]] == parts);
    } else {
        let init = parts.drop_last();
        assert forall|i: int| 0 <= i < init.len() implies is_plain(#[trigger] init[i]) by {
            assert(init[i] == parts[i]);
        }
        lemma_segments_of_slash_joined(init);
        lemma_segments_concat(slash_joined(init), parts.last());
        lemma_segments_plain(parts.last());
        assert(init + seq![parts.last()] == parts);
    }
}

/// Joined parts begin as their first part does.
pub proof fn lemma_slash_joined_begins(parts: Seq<Seq<char>>)
    requires
        parts.len() > 0,
        parts[0].len() > 0,
    ensures
        slash_joined(parts).len() > 0,
        slash_joined(parts)[0] == parts[0][0],
    decreases parts.len(),
{
    if parts.len() > 1 {
        lemma_slash_joined_begins(parts.drop_last());
    }
}

/// The first segment of a path that does not begin with a separator is not
/// empty, and begins as the path does.
pub proof fn lemma_first_segment(p: Seq<char>)
    requires
        p.len() > 0,
        p[0] != SEPARATOR,
    ensures
        segments(p)[0].len() > 0,
        segments(p)[0][0] == p[0],
    decreases p.len(),
{
    let init = p.drop_last();
    lemma_segments_len(init);
    if p.len() > 1 {
        lemma_first_segment(init);
    }
}

/// The names among the segments of a path are names, and hold no separator.
pub proof fn lemma_names_of_segments(p: Seq<char>)
    ensures
        are_names(segments(p).filter(names_only())),
{
    let segs = segments(p);
    let kept = segs.filter(names_only());
    assert forall|i: int| 0 <= i < kept.len() implies is_name(#[trigger] kept[i]) && is_plain(
        kept[i],
    ) by {
        segs.lemma_filter_pred(names_only(), i);
        assert(kept.contains(kept[i]));
        segs.lemma_filter_contains_rev(names_only(), kept[i]);
        let j = choose|j: int| 0 <= j < segs.len() && segs[j] == kept[i];
        lemma_segments_hold_no_separator(p, j);
    }
}

/// The components of a path are well formed, and all that follow the first
/// are names.
pub proof fn lemma_components_well_formed(p: Seq<char>)
    ensures
        well_formed(components(p)),
        forall|from: int| 1 <= from <= components(p).len() ==> are_names(
            #[trigger] components(p).skip(from),
        ),
{
    lemma_names_of_segments(p);
    let kept = segments(p).filter(names_only());
    let parts = components(p);
    if lead(p).len() == 0 {
        assert(parts == kept);
    } else {
        assert(parts.skip(1) == kept);
    }
    assert forall|from: int| 1 <= from <= parts.len() implies are_names(
        #[trigger] parts.skip(from),
    ) by {
        let tail = parts.skip(from);
        assert forall|i: int| 0 <= i < tail.len() implies is_name(#[trigger] tail[i]) && is_plain(
            tail[i],
        ) by {
            if lead(p).len() == 0 {
                assert(tail[i] == kept[from + i]);
            } else {
                assert(tail[i] == kept[from + i - 1]);
            }
        }
    }
}

/// Only the empty path has no component.
pub proof fn lemma_components_of_nonempty(p: Seq<char>)
    ensures
        components(p).len() == 0 <==> p.len() == 0,
{
    lemma_no_name_in_empty_segment();
    lemma_segments_len(p);
    let segs = segments(p);
    if p.len() == 0 {
        assert(segs == seq![Seq::<char>::empty()]);
        assert(segs[0].len() == 0);
        assert(lead(p).len() == 0);
    } else if is_absolute(p) {
        assert(lead(p).len() == 1);
    } else {
        lemma_first_segment(p);
        if segs[0] == dot() {
            assert(lead(p).len() == 1);
        } else {
            assert(is_name(segs[0]));
            segs.lemma_filter_contains(names_only(), 0);
            let kept = segs.filter(names_only());
            let i = choose|i: int| 0 <= i < kept.len() && kept[i] == segs[0];
            assert(kept.len() > 0);
        }
    }
}

/// Names put together are a path that does not begin at the root, whose
/// segments are these names.
pub proof fn lemma_assembled_names(parts: Seq<Seq<char>>)
    requires
        parts.len() > 0,
        are_names(parts),
    ensures
        assembled(parts) == slash_joined(parts),
        !is_absolute(assembled(parts)),
        segments(assembled(parts)) == parts,
        components(assembled(parts)) == parts,
{
    assert(is_name(parts[0]) && is_plain(parts[0]));
    assert(parts[0].contains(parts[0][0]));
    assert(root_mark().contains(root_mark()[0]));
    assert(parts[0] != root_mark());
    lemma_segments_of_slash_joined(parts);
    lemma_slash_joined_begins(parts);
    lemma_filter_keeps_names(parts);
    let whole = slash_joined(parts);
    assert(lead(whole) == Seq::<Seq<char>>::empty());
    assert(Seq::<Seq<char>>::empty() + parts == parts);
}

/// A root mark and names put together are the path that begins at the root
/// and goes on with these names.
pub proof fn lemma_assembled_rooted(rest: Seq<Seq<char>>)
    requires
        are_names(rest),
    ensures
        components(assembled(seq![root_mark()] + rest)) == seq![root_mark()] + rest,
{
    lemma_no_name_in_empty_segment();
    let none = Seq::<char>::empty();
    let parts = seq![root_mark()] + rest;
    assert(parts.skip(1) == rest);
    let tail = slash_joined(rest);
    let whole = assembled(parts);
    assert(whole == none + root_mark() + tail);
    lemma_segments_concat(none, tail);
    assert(segments(none) == seq![none]);
    if rest.len() > 0 {
        lemma_assembled_names(rest);
    } else {
        assert(tail == none);
    }
    assert(segments(tail).filter(names_only()) == rest);
    Seq::filter_distributes_over_add(segments(none), segments(tail), names_only());
    assert(segments(whole).filter(names_only()) == Seq::<Seq<char>>::empty() + rest);
    assert(is_absolute(whole));
    assert(lead(whole) == seq![root_mark()]);
}

/// A `.` and names put together are the path that begins with `.` and goes
/// on with these names.
pub proof fn lemma_assembled_dotted(rest: Seq<Seq<char>>)
    requires
        are_names(rest),
    ensures
        components(assembled(seq![dot()] + rest)) == seq![dot()] + rest,
{
    lemma_no_name_in_empty_segment();
    let parts = seq![dot()] + rest;
    assert(root_mark().contains(root_mark()[0]));
    assert(parts[0] == dot());
    assert(dot() != root_mark());
    assert forall|i: int| 0 <= i < parts.len() implies is_plain(#[trigger] parts[i]) by {
        if i > 0 {
            assert(parts[i] == rest[i - 1]);
        }
    }
    let whole = slash_joined(parts);
    assert(assembled(parts) == whole);
    lemma_segments_of_slash_joined(parts);
    lemma_slash_joined_begins(parts);
    assert(!is_absolute(whole));
    assert(lead(whole) == seq![dot()]);
    lemma_filter_keeps_names(rest);
    Seq::filter_distributes_over_add(seq![dot()], rest, names_only());
    assert(parts.filter(names_only()) == Seq::<Seq<char>>::empty() + rest);
}

/// Well-formed parts, put together and taken apart again, are the same
/// parts.
pub proof fn lemma_components_of_assembled(parts: Seq<Seq<char>>)
    requires
        well_formed(parts),
    ensures
        components(assembled(parts)) == parts,
{
    if parts.len() == 0 {
        lemma_components_of_nonempty(Seq::<char>::empty());
    } else if parts[0] == root_mark() {
        assert(root_mark().contains(root_mark()[0]));
        assert(!is_plain(parts[0]));
        lemma_assembled_rooted(parts.skip(1));
        assert(seq![root_mark()] + parts.skip(1) == parts);
    } else if parts[0] == dot() {
        assert(!is_name(parts[0]));
        lemma_assembled_dotted(parts.skip(1));
        assert(seq![dot()] + parts.skip(1) == parts);
    } else {
        lemma_assembled_names(parts);
    }
}

/// Taking a path apart and putting it together yields a path with the same
/// components.
pub proof fn lemma_assembled_is_normal(p: Seq<char>)
    ensures
        components(assembled(components(p))) == components(p),
{
    lemma_components_well_formed(p);
    lemma_components_of_assembled(components(p));
}

/// What is appended to a path that is not empty adds its names to the
/// components of the path, and nothing else: after a separator in any case,
/// and directly where the path ends in a separator.
pub proof fn lemma_components_of_appended(root: Seq<char>, rel: Seq<char>)
    requires
        root.len() > 0,
    ensures
        components(root + root_mark() + rel) == components(root) + segments(rel).filter(
            names_only(),
        ),
        root.last() == SEPARATOR ==> components(root + rel) == components(root) + segments(
            rel,
        ).filter(names_only()),
{
    lemma_no_name_in_empty_segment();
    let none = Seq::<char>::empty();
    lemma_segments_len(root);
    let parted = root + root_mark() + rel;
    lemma_segments_concat(root, rel);
    Seq::filter_distributes_over_add(segments(root), segments(rel), names_only());
    assert(parted[0] == root[0]);
    assert(segments(parted)[0] == segments(root)[0]);
    if root.last() == SEPARATOR {
        let whole = root + rel;
        let head = root.drop_last();
        lemma_segments_len(head);
        assert(whole == head + root_mark() + rel);
        assert(root == head + root_mark() + none);
        lemma_segments_concat(head, rel);
        lemma_segments_concat(head, none);
        Seq::filter_distributes_over_add(segments(head), segments(rel), names_only());
        Seq::filter_distributes_over_add(segments(head), segments(none), names_only());
        assert(whole[0] == root[0]);
        assert(segments(whole)[0] == segments(root)[0]);
    }
}

/// The components of a request joined to a root are those of the root, then
/// the names of the request, as long as the root is not empty and the request
/// not absolute.
pub proof fn lemma_components_of_joined(root: Seq<char>, rel: Seq<char>)
    requires
        root.len() > 0,
        !is_absolute(rel),
    ensures
        components(joined(root, rel)) == components(root) + segments(rel).filter(names_only()),
{
    lemma_components_of_appended(root, rel);
}

/// A path whose text begins with a base that is not empty lies under that
/// base: its components are those of the base, then the names of the text
/// after the base.
pub proof fn lemma_components_after_base(path: Seq<char>, base: Seq<char>)
    requires
        has_base(path, base),
        base.len() > 0,
    ensures
        components(path) == components(base) + segments(text_after_base(path, base)).filter(
            names_only(),
        ),
        path_starts_with(path, base),
{
    lemma_no_name_in_empty_segment();
    let rest = text_after_base(path, base);
    lemma_components_of_appended(base, rest);
    if path.len() == base.len() {
        assert(path == base);
        assert(rest == Seq::<char>::empty());
        assert(segments(rest) == seq![Seq::<char>::empty()]);
        assert(components(base) + Seq::<Seq<char>>::empty() == components(base));
    } else if base.last() == SEPARATOR {
        assert(path == base + rest);
    } else {
        assert(path == base + root_mark() + rest);
    }
}

/// Names put together and requested under a root that is not empty lead to
/// the components of the root followed by these names.
pub proof fn lemma_components_of_joined_names(root: Seq<char>, parts: Seq<Seq<char>>)
    requires
        root.len() > 0,
        are_names(parts),
    ensures
        components(joined(root, assembled(parts))) == components(root) + parts,
{
    lemma_no_name_in_empty_segment();
    let rel = assembled(parts);
    if parts.len() > 0 {
        lemma_assembled_names(parts);
        lemma_filter_keeps_names(parts);
    } else {
        assert(rel == Seq::<char>::empty());
        assert(segments(rel) == seq![Seq::<char>::empty()]);
    }
    lemma_components_of_joined(root, rel);
}

/// The path of an entry as seen from the root, requested under that root,
/// leads to the entry: its components are those of the directory followed by
/// the name of the entry.
pub proof fn lemma_relative_path_leads_to_child(path: Seq<char>, root: Seq<char>, name: Seq<char>)
    requires
        path_starts_with(path, root),
        is_name(name),
        is_plain(name),
    ensures
        components(joined(root, assembled(below(path, root).push(name)))) == components(
            path,
        ).push(name),
{
    let whole = components(path);
    let under = below(path, root);
    let parts = under.push(name);
    lemma_components_of_nonempty(root);
    lemma_components_well_formed(path);
    if root.len() == 0 {
        assert(under == whole);
        assert(well_formed(parts)) by {
            if are_names(whole) {
                assert(are_names(parts));
            } else {
                assert(parts.skip(1) == whole.skip(1).push(name));
                assert(are_names(whole.skip(1)));
                assert(are_names(parts.skip(1)));
            }
        }
        lemma_components_of_assembled(parts);
        assert(root + assembled(parts) == assembled(parts));
    } else {
        assert(are_names(whole.skip(components(root).len() as int)));
        assert(are_names(parts));
        lemma_components_of_joined_names(root, parts);
        assert(components(root) + parts == whole.push(name));
    }
}

/// The path of the directory above as seen from the root, requested under
/// that root, leads to the directory above: its components are those of the
/// directory without the last.
pub proof fn lemma_relative_path_leads_to_parent(path: Seq<char>, root: Seq<char>)
    requires
        path_starts_with(path, root),
        below(path, root).len() > 0,
    ensures
        components(joined(root, assembled(below(path, root).drop_last()))) == components(
            path,
        ).drop_last(),
{
    let whole = components(path);
    let under = below(path, root);
    let parts = under.drop_last();
    lemma_components_of_nonempty(root);
    lemma_components_well_formed(path);
    if root.len() == 0 {
        assert(under == whole);
        assert(well_formed(parts)) by {
            if are_names(whole) {
                assert forall|i: int| 0 <= i < parts.len() implies is_name(#[trigger] parts[i])
                    && is_plain(parts[i]) by {
                    assert(parts[i] == whole[i]);
                }
            } else if parts.len() > 0 {
                assert(are_names(whole.skip(1)));
                assert forall|i: int| 0 <= i < parts.skip(1).len() implies is_name(
                    #[trigger] parts.skip(1)[i],
                ) && is_plain(parts.skip(1)[i]) by {
                    assert(parts.skip(1)[i] == whole.skip(1)[i]);
                }
            }
        }
        lemma_components_of_assembled(parts);
        assert(root + assembled(parts) == assembled(parts));
    } else {
        assert(are_names(whole.skip(components(root).len() as int)));
        assert forall|i: int| 0 <= i < parts.len() implies is_name(#[trigger] parts[i])
            && is_plain(parts[i]) by {
            assert(parts[i] == under[i]);
        }
        lemma_components_of_joined_names(root, parts);
        assert(components(root) + parts == whole.drop_last());
    }
}

} // verus!
