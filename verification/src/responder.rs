//! From a resolved path to a reply: a file to download, or a page of links to
//! what a directory holds.

use vstd::prelude::*;
use vstd::relations::sorted_by;
use vstd::string::StringExecFns;
use crate::normal::{
    is_plain, lemma_relative_path_leads_to_child, lemma_relative_path_leads_to_parent,
};
use crate::order::{lemma_name_order_total, name_order, sort_texts};
use crate::path::{
    assemble, assembled, base_is_closed, base_name, below, components, components_of, file_name,
    has_base, is_name, path_starts_with, request_target, root_mark, strip_base,
    text_after_base,
};
use crate::reply::{
    not_found, not_found_reply, server_error, server_error_reply, Body, BodyView, Header,
    HeaderView, Reply, ReplyView,
};
use crate::resolver::{resolution, ResolvedPath, ResolvedView};
use crate::text::{chars_of, string_of, string_texts, texts};

verus! {

/// What a link shows: the path it leads to, or `..` where that path is empty.
pub open spec fn link_label(path: Seq<char>) -> Seq<char> {
    if path.len() == 0 {
        ".."@
    } else {
        path
    }
}

/// The link to `path` below `/files/`.
pub open spec fn link_text(path: Seq<char>) -> Seq<char> {
    "<a href=\"/files/"@ + path + "\">"@ + link_label(path) + "</a>"@
}

/// The link to `path` below `/files/` that shows `..`, whatever the path: the
/// link from a directory to the one above it.
pub open spec fn parent_link_text(path: Seq<char>) -> Seq<char> {
    "<a href=\"/files/"@ + path + "\">..</a>"@
}

/// What ends each line of a listing.
pub open spec fn line_break() -> Seq<char> {
    "<br>\n"@
}

/// The links, one to a line.
pub open spec fn lines(links: Seq<Seq<char>>) -> Seq<char>
    decreases links.len(),
{
    if links.len() == 0 {
        Seq::empty()
    } else {
        lines(links.drop_last()) + links.last() + line_break()
    }
}

/// The path, as seen from the root, of the entry called `name` in the
/// directory whose components below the root are `under`.
pub open spec fn child_path(under: Seq<Seq<char>>, name: Seq<char>) -> Seq<char> {
    assembled(under.push(name))
}

/// The link to the directory above, for every directory but the root itself.
/// It shows `..`.
pub open spec fn parent_links(under: Seq<Seq<char>>) -> Seq<Seq<char>> {
    if under.len() > 0 {
        seq![parent_link_text(assembled(under.drop_last()))]
    } else {
        Seq::empty()
    }
}

/// One link for each name, in the order given.
pub open spec fn child_links(under: Seq<Seq<char>>, names: Seq<Seq<char>>) -> Seq<Seq<char>> {
    Seq::new(names.len(), |i: int| link_text(child_path(under, names[i])))
}

/// The links of the listing of the directory `path` under `root` that holds
/// the entries `names`: the link to the directory above, then the entries in
/// the order of names.
pub open spec fn listing_links(path: Seq<char>, root: Seq<char>, names: Seq<Seq<char>>) -> Seq<
    Seq<char>,
> {
    let under = below(path, root);
    parent_links(under) + child_links(under, names.sort_by(name_order()))
}

/// The reply that lists a directory.
pub open spec fn listing_reply(path: Seq<char>, root: Seq<char>, names: Seq<Seq<char>>) -> ReplyView {
    ReplyView {
        status: 200,
        headers: Seq::empty(),
        body: BodyView::Text(lines(listing_links(path, root, names))),
    }
}

/// The name under which a file is offered for download: its base name, or
/// `file` for a path that has none.
pub open spec fn download_name(path: Seq<char>) -> Seq<char> {
    match base_name(path) {
        Some(name) => name,
        None => "file"@,
    }
}

/// The value of the header that offers a download under `name`.
pub open spec fn disposition(name: Seq<char>) -> Seq<char> {
    "attachment; filename=\""@ + name + "\""@
}

/// The reply that serves the file at `path` with the given content type. Its
/// body stands for the contents of that file.
pub open spec fn file_reply(path: Seq<char>, content_type: Seq<char>) -> ReplyView {
    ReplyView {
        status: 200,
        headers: seq![
            HeaderView { name: "Content-Type"@, value: content_type },
            HeaderView { name: "Content-Disposition"@, value: disposition(download_name(path)) },
        ],
        body: BodyView::File(path),
    }
}

/// The media type that `mime_guess` gives for a path, by its extension.
pub uninterp spec fn guessed_mime(path: Seq<char>) -> Seq<char>;

/// Asks `mime_guess` for the media type of `path`: `from_path`, then
/// `first_or_octet_stream`, then the type and subtype of the result as text
/// (`Mime::essence_str`). The result depends on the text of the path alone;
/// the contract names it and claims nothing more of it. The body is not
/// verified.
#[verifier::external_body]
fn guess_mime(path: &str) -> (mime: String)
    ensures
        mime@ == guessed_mime(path@),
{
    mime_guess::from_path(path).first_or_octet_stream().essence_str().to_string()
}

/// The link to `path` below `/files/`.
pub fn html_link(path: &str) -> (link: String)
    ensures
        link@ == link_text(path@),
{
    let mut link = "<a href=\"/files/".to_owned();
    link.append(path);
    link.append("\">");
    if path.is_empty() {
        link.append("..");
    } else {
        link.append(path);
    }
    link.append("</a>");
    link
}

/// The link from a directory to the one above it, which is at `path` below
/// `/files/`.
pub fn parent_link(path: &str) -> (link: String)
    ensures
        link@ == parent_link_text(path@),
{
    let mut link = "<a href=\"/files/".to_owned();
    link.append(path);
    link.append("\">..</a>");
    link
}

/// `path` without the `base` that begins it: the text of `path` after `base`
/// and after the separator that parts the two, unchanged.
pub fn remove_base_dir(path: &str, base: &str) -> (rel: String)
    requires
        has_base(path@, base@),
    ensures
        rel@ == text_after_base(path@, base@),
        base_is_closed(path@, base@) ==> path@ == base@ + rel@,
        !base_is_closed(path@, base@) ==> path@ == base@ + root_mark() + rel@,
{
    let rest = strip_base(&chars_of(path), &chars_of(base));
    string_of(&rest)
}

/// The reply that serves the file at `path` with the given content type.
pub fn file_response(path: &str, content_type: String) -> (r: Reply)
    ensures
        r@ == file_reply(path@, content_type@),
{
    let name = match file_name(path) {
        Some(name) => name,
        None => "file".to_owned(),
    };
    let mut value = "attachment; filename=\"".to_owned();
    value.append(name.as_str());
    value.append("\"");
    let mut headers: Vec<Header> = Vec::new();
    headers.push(Header { name: "Content-Type".to_owned(), value: content_type });
    headers.push(Header { name: "Content-Disposition".to_owned(), value });
    let r = Reply { status: 200, headers, body: Body::File(path.to_owned()) };
    assert(r@.headers == file_reply(path@, content_type@).headers);
    r
}

/// The reply that serves the file at a resolved path.
pub fn handle_file(resolved: &ResolvedPath) -> (r: Reply)
    ensures
        r@ == file_reply(resolved@.path, guessed_mime(resolved@.path)),
{
    let path = resolved.path();
    let content_type = guess_mime(path);
    file_response(path, content_type)
}

/// The reply that lists the directory at a resolved path, given the names of
/// the entries that it holds.
pub fn handle_dir(resolved: &ResolvedPath, children: Vec<String>) -> (r: Reply)
    ensures
        r@ == listing_reply(resolved@.path, resolved@.root, string_texts(children@)),
{
    broadcast use vstd::std_specs::vec::axiom_spec_into_iter;

    let ghost names = string_texts(children@);
    let ghost depth = below(resolved@.path, resolved@.root);
    let mut parts = components_of(&chars_of(resolved.path()));
    let root_parts = components_of(&chars_of(resolved.root()));
    let mut under = parts.split_off(root_parts.len());
    assert(texts(under@) == depth);

    let mut body = String::new();
    if under.len() > 0 {
        let last = under.pop().unwrap();
        assert(texts(under@) == depth.drop_last());
        assert(texts(under@).skip(0) == texts(under@));
        let parent = string_of(&assemble(&under, 0));
        let link = parent_link(parent.as_str());
        body.append(link.as_str());
        body.append("<br>\n");
        under.push(last);
        assert(texts(under@) == depth);
        assert(parent_links(depth).drop_last() == Seq::<Seq<char>>::empty());
    }
    assert(lines(Seq::<Seq<char>>::empty()) == Seq::<char>::empty());
    assert(body@ == lines(parent_links(depth)));

    let mut keys: Vec<Vec<char>> = Vec::new();
    let mut i: usize = 0;
    while i < children.len()
        invariant
            i <= children.len(),
            names == string_texts(children@),
            texts(keys@) == names.take(i as int),
        decreases children.len() - i,
    {
        let key = chars_of(children[i].as_str());
        assert(key@ == names[i as int]);
        keys.push(key);
        assert(texts(keys@) == names.take(i as int).push(names[i as int]));
        i += 1;
    }
    assert(names.take(children.len() as int) == names);
    let sorted = sort_texts(keys);
    let ghost all = sorted@;
    let ghost ordered = names.sort_by(name_order());
    assert(child_links(depth, texts(all.take(0))) == Seq::<Seq<char>>::empty());
    assert(parent_links(depth) + Seq::<Seq<char>>::empty() == parent_links(depth));
    for name in it: sorted
        invariant
            it.seq() == all,
            texts(all) == ordered,
            texts(under@) == depth,
            body@ == lines(
                parent_links(depth) + child_links(depth, texts(all.take(it.index()))),
            ),
    {
        let ghost done = parent_links(depth) + child_links(depth, texts(all.take(it.index())));
        let ghost text = name@;
        under.push(name);
        assert(texts(under@) == depth.push(text));
        assert(texts(under@).skip(0) == texts(under@));
        let child = string_of(&assemble(&under, 0));
        under.pop();
        assert(texts(under@) == depth);
        let link = html_link(child.as_str());
        body.append(link.as_str());
        body.append("<br>\n");
        proof {
            let next = parent_links(depth) + child_links(
                depth,
                texts(all.take(it.index() + 1)),
            );
            assert(next == done.push(link@));
            assert(next.drop_last() == done);
        }
    }
    assert(all.take(all.len() as int) == all);
    let r = Reply { status: 200, headers: Vec::new(), body: Body::Text(body) };
    assert(r@.headers == Seq::<HeaderView>::empty());
    r
}

/// What the file system says stands at a path.
#[derive(Debug, Clone, PartialEq, Eq)]
pub enum Entry {
    /// Nothing.
    Missing,
    /// A regular file, and whether it could be opened.
    File { opened: bool },
    /// A directory, and the names of the entries that could be read from it.
    Directory { children: Vec<String> },
    /// A directory that could not be read.
    Unreadable,
    /// Something that is neither a file nor a directory.
    Other,
}

/// An `Entry` as text.
pub enum EntryView {
    Missing,
    File { opened: bool },
    Directory { children: Seq<Seq<char>> },
    Unreadable,
    Other,
}

impl View for Entry {
    type V = EntryView;

    open spec fn view(&self) -> EntryView {
        match self {
            Entry::Missing => EntryView::Missing,
            Entry::File { opened } => EntryView::File { opened: *opened },
            Entry::Directory { children } => EntryView::Directory {
                children: string_texts(children@),
            },
            Entry::Unreadable => EntryView::Unreadable,
            Entry::Other => EntryView::Other,
        }
    }
}

/// The reply for a resolved path, by what stands there: nothing, a file that
/// cannot be opened and a directory that cannot be read are not found; a file
/// is served; a directory is listed; anything else is a fault of the server.
pub open spec fn response(resolved: ResolvedView, entry: EntryView) -> ReplyView {
    match entry {
        EntryView::Missing => not_found_reply(),
        EntryView::File { opened } => if opened {
            file_reply(resolved.path, guessed_mime(resolved.path))
        } else {
            not_found_reply()
        },
        EntryView::Directory { children } => listing_reply(resolved.path, resolved.root, children),
        EntryView::Unreadable => not_found_reply(),
        EntryView::Other => server_error_reply(),
    }
}

/// Builds the reply for a resolved path, by what stands there.
pub fn respond(resolved: &ResolvedPath, entry: Entry) -> (r: Reply)
    ensures
        r@ == response(resolved@, entry@),
{
    match entry {
        Entry::Missing => not_found(),
        Entry::File { opened } => if opened {
            handle_file(resolved)
        } else {
            not_found()
        },
        Entry::Directory { children } => handle_dir(resolved, children),
        Entry::Unreadable => not_found(),
        Entry::Other => server_error(),
    }
}

/// A listing holds one link for each entry of the directory, in the order of
/// names, after one link to the directory above; only the listing of the root
/// itself has no link to the directory above.
pub proof fn lemma_listing_links(path: Seq<char>, root: Seq<char>, names: Seq<Seq<char>>)
    requires
        path_starts_with(path, root),
    ensures
        ({
            let links = listing_links(path, root, names);
            let ordered = names.sort_by(name_order());
            let first = if components(path) == components(root) {
                0int
            } else {
                1int
            };
            &&& ordered.to_multiset() == names.to_multiset()
            &&& sorted_by(ordered, name_order())
            &&& links.len() == first + names.len()
            &&& first == 1 ==> links[0] == parent_link_text(
                assembled(below(path, root).drop_last()),
            )
            &&& forall|i: int|
                0 <= i < ordered.len() ==> links[first + i] == link_text(
                    child_path(below(path, root), #[trigger] ordered[i]),
                )
        }),
{
    broadcast use vstd::seq_lib::group_to_multiset_ensures;

    lemma_name_order_total();
    names.lemma_sort_by_ensures(name_order());
    let ordered = names.sort_by(name_order());
    assert(ordered.len() == names.len()) by {
        assert(ordered.to_multiset().len() == names.to_multiset().len());
    }
    let whole = components(path);
    let base = components(root);
    if whole.len() == base.len() {
        assert(whole =~= base);
    }
}

/// A request that resolves to a file which can be opened is served with status
/// 200, offered for download under the base name of the canonical path, with
/// a body that stands for the contents of the file at that path.
pub proof fn lemma_resolved_file_is_served(
    root: Seq<char>,
    requested: Option<Seq<char>>,
    canonical: Seq<char>,
    name: Seq<char>,
)
    requires
        resolution(root, requested, Some(canonical)) is Ok,
        base_name(canonical) == Some(name),
    ensures
        ({
            let resolved = resolution(root, requested, Some(canonical))->Ok_0;
            let reply = response(resolved, EntryView::File { opened: true });
            &&& reply.status == 200
            &&& reply.headers.len() == 2
            &&& reply.headers[1] == HeaderView {
                name: "Content-Disposition"@,
                value: "attachment; filename=\""@ + name + "\""@,
            }
            &&& reply.body == BodyView::File(canonical)
        }),
{
}

/// The link to an entry of a listing asks for that entry: the path it names,
/// requested under the same root, has the components of the directory
/// followed by the name of the entry.
pub proof fn lemma_link_leads_to_entry(path: Seq<char>, root: Seq<char>, name: Seq<char>)
    requires
        path_starts_with(path, root),
        is_name(name),
        is_plain(name),
    ensures
        components(request_target(root, Some(child_path(below(path, root), name))))
            == components(path).push(name),
{
    lemma_relative_path_leads_to_child(path, root, name);
}

/// The link to the directory above asks for the directory above: the path it
/// names, requested under the same root, has the components of the directory
/// without the last.
pub proof fn lemma_parent_link_leads_up(path: Seq<char>, root: Seq<char>)
    requires
        path_starts_with(path, root),
        components(path) != components(root),
    ensures
        parent_links(below(path, root)) == seq![
            parent_link_text(assembled(below(path, root).drop_last())),
        ],
        components(request_target(root, Some(assembled(below(path, root).drop_last()))))
            == components(path).drop_last(),
{
    let whole = components(path);
    let base = components(root);
    if whole.len() == base.len() {
        assert(whole =~= base);
    }
    lemma_relative_path_leads_to_parent(path, root);
}

} // verus!
