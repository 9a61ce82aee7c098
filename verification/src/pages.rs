use vstd::prelude::*;
use crate::content::{
    CSSContent, JSONContent, MDContent, MDContentView, PageContent, PageContentView,
    default_page_view,
};
use crate::file_name::{file_extension, spec_extension};
use crate::ordering::{
    CreatedOrder, lemma_pages_sorted_by_markdown_creation, sort_by_created, sorted_by_created,
    views,
};

verus! {

/// What a file of the content directory contributes to its page, decided by
/// its extension.
#[derive(Debug, Clone, Copy, PartialEq, Eq, Structural)]
pub enum FileKind {
    Markdown,
    Json,
    Css,
    Other,
}

/// The kind of a file with extension `ext`.
pub open spec fn spec_kind(ext: Seq<char>) -> FileKind {
    if ext == "md"@ {
        FileKind::Markdown
    } else if ext == "json"@ {
        FileKind::Json
    } else if ext == "css"@ {
        FileKind::Css
    } else {
        FileKind::Other
    }
}

/// A file is of a kind exactly when its extension is that kind's: `md` for
/// markdown, `json` for JSON, `css` for CSS, and any other extension for
/// none of them.
pub proof fn lemma_kind_by_extension(ext: Seq<char>)
    ensures
        (spec_kind(ext) == FileKind::Markdown) <==> ext == "md"@,
        (spec_kind(ext) == FileKind::Json) <==> ext == "json"@,
        (spec_kind(ext) == FileKind::Css) <==> ext == "css"@,
        (spec_kind(ext) == FileKind::Other) <==> (ext != "md"@ && ext != "json"@ && ext != "css"@),
{
    reveal_strlit("md");
    reveal_strlit("json");
    reveal_strlit("css");
    assert("md"@.len() != "json"@.len());
    assert("md"@.len() != "css"@.len());
    assert("json"@.len() != "css"@.len());
}

/// Is `s` the same text as the literal `lit`?
fn same_text(s: &str, lit: &str) -> (r: bool)
    ensures
        r == (s@ == lit@),
{
    let n = s.unicode_len();
    if n != lit.unicode_len() {
        return false;
    }
    let mut i: usize = 0;
    while i < n
        invariant
            i <= n,
            n == s@.len(),
            n == lit@.len(),
            forall|j: int| 0 <= j < i ==> s@[j] == lit@[j],
        decreases n - i,
    {
        if s.get_char(i) != lit.get_char(i) {
            return false;
        }
        i = i + 1;
    }
    assert(s@ =~= lit@);
    true
}

/// The kind of the file called `file_name`. A name without an extension has
/// no kind: the content directory holds none such.
pub fn file_kind(file_name: &str) -> (r: FileKind)
    requires
        spec_extension(file_name@) is Some,
    ensures
        r == spec_kind(spec_extension(file_name@)->0),
{
    let ext = file_extension(file_name).unwrap();
    if same_text(ext.as_str(), "md") {
        FileKind::Markdown
    } else if same_text(ext.as_str(), "json") {
        FileKind::Json
    } else if same_text(ext.as_str(), "css") {
        FileKind::Css
    } else {
        FileKind::Other
    }
}

/// Is the file called `file_name` a markdown file (extension `md`)?
pub fn is_markdown_file(file_name: &str) -> (r: bool)
    requires
        spec_extension(file_name@) is Some,
    ensures
        r == (spec_extension(file_name@)->0 == "md"@),
{
    let ext = file_extension(file_name).unwrap();
    same_text(ext.as_str(), "md")
}

/// What one file of the content directory holds, once loaded.
#[derive(Debug, PartialEq, Eq)]
pub enum PartContent {
    Markdown(MDContent),
    Json(JSONContent),
    Css(CSSContent),
    Other,
}

/// One loaded file of the content directory, with the stem of its name.
#[derive(Debug, PartialEq, Eq)]
pub struct PagePart {
    pub stem: String,
    pub content: PartContent,
}

/// A page after one more of its files has been loaded into it.
pub open spec fn apply_part(page: PageContentView, content: PartContent) -> PageContentView {
    match content {
        PartContent::Markdown(m) => PageContentView {
            markdown: m@,
            json: page.json,
            css: page.css,
        },
        PartContent::Json(j) => PageContentView {
            markdown: page.markdown,
            json: j@,
            css: page.css,
        },
        PartContent::Css(c) => PageContentView {
            markdown: page.markdown,
            json: page.json,
            css: c@,
        },
        PartContent::Other => page,
    }
}

/// The distinct stems of `parts`, in the order in which they first appear.
pub open spec fn stem_order(parts: Seq<PagePart>) -> Seq<Seq<char>>
    decreases parts.len(),
{
    if parts.len() == 0 {
        Seq::empty()
    } else {
        let o = stem_order(parts.drop_last());
        if o.contains(parts.last().stem@) {
            o
        } else {
            o.push(parts.last().stem@)
        }
    }
}

/// The page of stem `stem`: the empty page with every part of that stem
/// loaded into it in turn, so that a later file of a kind replaces an
/// earlier one.
pub open spec fn page_for(parts: Seq<PagePart>, stem: Seq<char>) -> PageContentView
    decreases parts.len(),
{
    if parts.len() == 0 {
        default_page_view()
    } else {
        let p = page_for(parts.drop_last(), stem);
        if parts.last().stem@ == stem {
            apply_part(p, parts.last().content)
        } else {
            p
        }
    }
}

/// The markdown of the last markdown file of stem `s` among `parts`, if any.
pub open spec fn last_markdown(parts: Seq<PagePart>, s: Seq<char>) -> Option<MDContentView>
    decreases parts.len(),
{
    if parts.len() == 0 {
        None
    } else {
        match parts.last().content {
            PartContent::Markdown(m) => if parts.last().stem@ == s {
                Some(m@)
            } else {
                last_markdown(parts.drop_last(), s)
            },
            _ => last_markdown(parts.drop_last(), s),
        }
    }
}

/// The payload of the last JSON file of stem `s` among `parts`, if any.
pub open spec fn last_json(parts: Seq<PagePart>, s: Seq<char>) -> Option<Seq<char>>
    decreases parts.len(),
{
    if parts.len() == 0 {
        None
    } else {
        match parts.last().content {
            PartContent::Json(j) => if parts.last().stem@ == s {
                Some(j@)
            } else {
                last_json(parts.drop_last(), s)
            },
            _ => last_json(parts.drop_last(), s),
        }
    }
}

/// The payload of the last CSS file of stem `s` among `parts`, if any.
pub open spec fn last_css(parts: Seq<PagePart>, s: Seq<char>) -> Option<Seq<char>>
    decreases parts.len(),
{
    if parts.len() == 0 {
        None
    } else {
        match parts.last().content {
            PartContent::Css(c) => if parts.last().stem@ == s {
                Some(c@)
            } else {
                last_css(parts.drop_last(), s)
            },
            _ => last_css(parts.drop_last(), s),
        }
    }
}

/// Each part of a page comes from the last file of its kind and stem, and
/// from nothing else: the markdown is that of the last markdown file of the
/// stem (created at the epoch and titled and bodied `None` without one), the
/// JSON payload that of the last JSON file (empty without one), the CSS
/// payload that of the last CSS file (empty without one). Loading a file of
/// one kind leaves the other two parts as they were.
pub proof fn lemma_page_parts_are_last_files(parts: Seq<PagePart>, s: Seq<char>)
    ensures
        page_for(parts, s).markdown == match last_markdown(parts, s) {
            Some(m) => m,
            None => MDContentView { created: 0, title: "None"@, body: "None"@ },
        },
        page_for(parts, s).json == match last_json(parts, s) {
            Some(j) => j,
            None => Seq::<char>::empty(),
        },
        page_for(parts, s).css == match last_css(parts, s) {
            Some(c) => c,
            None => Seq::<char>::empty(),
        },
    decreases parts.len(),
{
    if parts.len() > 0 {
        lemma_page_parts_are_last_files(parts.drop_last(), s);
    }
}

/// One page per distinct stem of `parts`, in the order of first appearance.
pub open spec fn grouped_pages(parts: Seq<PagePart>) -> Seq<PageContentView> {
    stem_order(parts).map_values(|s: Seq<char>| page_for(parts, s))
}

proof fn lemma_stem_order_distinct(parts: Seq<PagePart>)
    ensures
        stem_order(parts).no_duplicates(),
    decreases parts.len(),
{
    if parts.len() > 0 {
        lemma_stem_order_distinct(parts.drop_last());
    }
}

proof fn lemma_page_for_absent(parts: Seq<PagePart>, stem: Seq<char>)
    requires
        !stem_order(parts).contains(stem),
    ensures
        page_for(parts, stem) == default_page_view(),
    decreases parts.len(),
{
    if parts.len() > 0 {
        let o = stem_order(parts.drop_last());
        if o.contains(parts.last().stem@) {
        } else {
            assert(stem_order(parts) == o.push(parts.last().stem@));
            if o.contains(stem) {
                let k = choose|k: int| 0 <= k < o.len() && o[k] == stem;
                assert(stem_order(parts)[k] == stem);
            }
            assert(parts.last().stem@ != stem) by {
                assert(stem_order(parts)[o.len() as int] == parts.last().stem@);
            }
        }
        lemma_page_for_absent(parts.drop_last(), stem);
    }
}

/// The stems of a sequence of parts, each taken by its abstract value.
pub open spec fn part_stems(parts: Seq<PagePart>) -> Seq<Seq<char>> {
    parts.map_values(|p: PagePart| p.stem@)
}

/// There is one page per distinct stem: the stems in page order are the
/// stems of the parts, each exactly once.
pub proof fn lemma_one_page_per_stem(parts: Seq<PagePart>)
    ensures
        stem_order(parts).no_duplicates(),
        grouped_pages(parts).len() == stem_order(parts).len(),
        forall|s: Seq<char>| stem_order(parts).contains(s) <==> part_stems(parts).contains(s),
    decreases parts.len(),
{
    lemma_stem_order_distinct(parts);
    if parts.len() > 0 {
        let pre = parts.drop_last();
        lemma_one_page_per_stem(pre);
        assert(part_stems(parts) =~= part_stems(pre).push(parts.last().stem@));
        assert forall|s: Seq<char>| stem_order(parts).contains(s) <==> part_stems(
            parts,
        ).contains(s) by {
            if part_stems(parts).contains(s) {
                let i = choose|i: int| 0 <= i < part_stems(parts).len() && part_stems(parts)[i] == s;
                if i < pre.len() {
                    assert(part_stems(pre)[i] == s);
                }
                if !stem_order(pre).contains(parts.last().stem@) {
                    assert(stem_order(parts) == stem_order(pre).push(parts.last().stem@));
                    if stem_order(pre).contains(s) {
                        let k = choose|k: int| 0 <= k < stem_order(pre).len() && stem_order(pre)[k] == s;
                        assert(stem_order(parts)[k] == s);
                    } else {
                        assert(stem_order(parts)[stem_order(pre).len() as int] == s);
                    }
                }
            }
            if stem_order(parts).contains(s) {
                let k = choose|k: int| 0 <= k < stem_order(parts).len() && stem_order(parts)[k] == s;
                if stem_order(pre).contains(parts.last().stem@) {
                    assert(stem_order(parts) == stem_order(pre));
                    assert(stem_order(pre).contains(s));
                    let i = choose|i: int| 0 <= i < part_stems(pre).len() && part_stems(pre)[i] == s;
                    assert(part_stems(parts)[i] == s);
                } else if k < stem_order(pre).len() {
                    assert(stem_order(parts) == stem_order(pre).push(parts.last().stem@));
                    assert(stem_order(pre)[k] == s);
                    assert(stem_order(pre).contains(s));
                    let i = choose|i: int| 0 <= i < part_stems(pre).len() && part_stems(pre)[i] == s;
                    assert(part_stems(parts)[i] == s);
                } else {
                    assert(stem_order(parts) == stem_order(pre).push(parts.last().stem@));
                    assert(part_stems(parts)[pre.len() as int] == s);
                }
            }
        }
    }
}

/// The markdown files among `parts`, in order.
pub open spec fn markdown_of_parts(parts: Seq<PagePart>) -> Seq<MDContentView>
    decreases parts.len(),
{
    if parts.len() == 0 {
        Seq::empty()
    } else {
        let m = markdown_of_parts(parts.drop_last());
        match parts.last().content {
            PartContent::Markdown(x) => m.push(x@),
            _ => m,
        }
    }
}

/// A markdown file of stem `s` is among `parts`.
pub open spec fn has_markdown(parts: Seq<PagePart>, s: Seq<char>) -> bool {
    exists|i: int| 0 <= i < parts.len() && #[trigger] parts[i].stem@ == s && parts[i].content is Markdown
}

/// No two markdown files among `parts` share a stem (as no two files of one
/// directory do).
pub open spec fn markdown_stems_distinct(parts: Seq<PagePart>) -> bool {
    forall|i: int, j: int|
        0 <= i < j < parts.len() && parts[i].content is Markdown && parts[j].content is Markdown
            ==> #[trigger] parts[i].stem@ != #[trigger] parts[j].stem@
}

/// The markdown of those pages, among the stems of `order`, that have a
/// markdown file, in that order.
pub open spec fn markdown_of_pages(parts: Seq<PagePart>, order: Seq<Seq<char>>) -> Seq<
    MDContentView,
>
    decreases order.len(),
{
    if order.len() == 0 {
        Seq::empty()
    } else {
        let m = markdown_of_pages(parts, order.drop_last());
        if has_markdown(parts, order.last()) {
            m.push(page_for(parts, order.last()).markdown)
        } else {
            m
        }
    }
}

proof fn lemma_has_markdown_step(parts: Seq<PagePart>, t: Seq<char>)
    requires
        parts.len() > 0,
    ensures
        has_markdown(parts, t) == (has_markdown(parts.drop_last(), t) || (parts.last().stem@ == t
            && parts.last().content is Markdown)),
{
    let pre = parts.drop_last();
    if has_markdown(pre, t) {
        let i = choose|i: int| 0 <= i < pre.len() && #[trigger] pre[i].stem@ == t && pre[i].content is Markdown;
        assert(parts[i] == pre[i]);
    }
    if has_markdown(parts, t) {
        let i = choose|i: int| 0 <= i < parts.len() && #[trigger] parts[i].stem@ == t && parts[i].content is Markdown;
        if i < pre.len() {
            assert(pre[i] == parts[i]);
        }
    }
    if parts.last().stem@ == t && parts.last().content is Markdown {
        assert(parts[parts.len() - 1].stem@ == t);
    }
}

proof fn lemma_markdown_of_pages_congruent(
    p1: Seq<PagePart>,
    p2: Seq<PagePart>,
    order: Seq<Seq<char>>,
)
    requires
        forall|t: Seq<char>| #[trigger] order.contains(t) ==> has_markdown(p1, t) == has_markdown(p2, t),
        forall|t: Seq<char>| #[trigger] order.contains(t) && has_markdown(p1, t) ==> page_for(p1, t).markdown
            == page_for(p2, t).markdown,
    ensures
        markdown_of_pages(p1, order) == markdown_of_pages(p2, order),
    decreases order.len(),
{
    if order.len() > 0 {
        let pre = order.drop_last();
        assert forall|t: Seq<char>| #[trigger] pre.contains(t) implies order.contains(t) by {
            let k = choose|k: int| 0 <= k < pre.len() && pre[k] == t;
            assert(order[k] == t);
        }
        assert(order.contains(order.last())) by {
            assert(order[order.len() - 1] == order.last());
        }
        lemma_markdown_of_pages_congruent(p1, p2, pre);
    }
}

proof fn lemma_markdown_of_pages_one_more(
    parts: Seq<PagePart>,
    order: Seq<Seq<char>>,
    s: Seq<char>,
    m: MDContentView,
)
    requires
        parts.len() > 0,
        order.no_duplicates(),
        order.contains(s),
        parts.last().stem@ == s,
        parts.last().content is Markdown,
        page_for(parts, s).markdown == m,
        !has_markdown(parts.drop_last(), s),
        forall|t: Seq<char>| t != s ==> has_markdown(parts, t) == has_markdown(parts.drop_last(), t),
        forall|t: Seq<char>| t != s ==> #[trigger] page_for(parts, t) == page_for(parts.drop_last(), t),
    ensures
        markdown_of_pages(parts, order).to_multiset() == markdown_of_pages(
            parts.drop_last(),
            order,
        ).to_multiset().insert(m),
    decreases order.len(),
{
    broadcast use vstd::seq_lib::group_to_multiset_ensures;

    let pre = parts.drop_last();
    let o = order.drop_last();
    lemma_has_markdown_step(parts, s);
    if order.last() == s {
        assert(!o.contains(s)) by {
            if o.contains(s) {
                let k = choose|k: int| 0 <= k < o.len() && o[k] == s;
                assert(order[k] == order[order.len() - 1]);
            }
        }
        lemma_markdown_of_pages_congruent(parts, pre, o);
    } else {
        assert(o.contains(s)) by {
            let k = choose|k: int| 0 <= k < order.len() && order[k] == s;
            assert(o[k] == s);
        }
        assert(o.no_duplicates()) by {
            assert forall|i: int, j: int| 0 <= i < o.len() && 0 <= j < o.len() && i != j implies o[i]
                != o[j] by {
                assert(o[i] == order[i] && o[j] == order[j]);
            }
        }
        lemma_markdown_of_pages_one_more(parts, o, s, m);
        let t = order.last();
        if has_markdown(parts, t) {
            assert(markdown_of_pages(parts, order) == markdown_of_pages(parts, o).push(
                page_for(parts, t).markdown,
            ));
            assert(markdown_of_pages(pre, order) == markdown_of_pages(pre, o).push(
                page_for(pre, t).markdown,
            ));
            assert(markdown_of_pages(parts, order).to_multiset() =~= markdown_of_pages(
                pre,
                order,
            ).to_multiset().insert(m));
        }
    }
}

/// The markdown pages of a directory are its markdown files: when no two
/// markdown files share a stem, the markdown of the pages that have a
/// markdown file is, up to order, the markdown files themselves. So the
/// sorted listing of a directory's markdown files holds the same entries as
/// the markdown of its assembled pages.
pub proof fn lemma_markdown_pages_are_markdown_files(parts: Seq<PagePart>)
    requires
        markdown_stems_distinct(parts),
    ensures
        markdown_of_pages(parts, stem_order(parts)).to_multiset() == markdown_of_parts(
            parts,
        ).to_multiset(),
    decreases parts.len(),
{
    broadcast use vstd::seq_lib::group_to_multiset_ensures;

    if parts.len() == 0 {
        assert(markdown_of_pages(parts, stem_order(parts)) =~= Seq::<MDContentView>::empty());
    } else {
        let pre = parts.drop_last();
        let x = parts.last();
        let s = x.stem@;
        let o = stem_order(pre);
        assert(markdown_stems_distinct(pre)) by {
            assert forall|i: int, j: int|
                0 <= i < j < pre.len() && pre[i].content is Markdown && pre[j].content is Markdown
                    implies #[trigger] pre[i].stem@ != #[trigger] pre[j].stem@ by {
                assert(pre[i] == parts[i] && pre[j] == parts[j]);
            }
        }
        lemma_markdown_pages_are_markdown_files(pre);
        lemma_one_page_per_stem(pre);
        lemma_stem_order_distinct(pre);
        assert forall|t: Seq<char>| t != s implies has_markdown(parts, t) == has_markdown(pre, t) by {
            lemma_has_markdown_step(parts, t);
        }
        assert forall|t: Seq<char>| t != s implies #[trigger] page_for(parts, t) == page_for(pre, t) by {}
        lemma_has_markdown_step(parts, s);
        if x.content is Markdown {
            let m = page_for(parts, s).markdown;
            assert(!has_markdown(pre, s)) by {
                if has_markdown(pre, s) {
                    let i = choose|i: int| 0 <= i < pre.len() && #[trigger] pre[i].stem@ == s && pre[i].content is Markdown;
                    assert(parts[i] == pre[i]);
                    assert(parts[i].stem@ != parts[parts.len() - 1].stem@);
                }
            }
            assert(markdown_of_parts(parts) == markdown_of_parts(pre).push(m));
            if o.contains(s) {
                assert(stem_order(parts) == o);
                lemma_markdown_of_pages_one_more(parts, o, s, m);
            } else {
                assert(stem_order(parts) == o.push(s));
                assert(o.push(s).drop_last() =~= o);
                lemma_markdown_of_pages_congruent(parts, pre, o);
            }
        } else {
            assert(markdown_of_parts(parts) == markdown_of_parts(pre));
            assert(page_for(parts, s).markdown == page_for(pre, s).markdown);
            if o.contains(s) {
                assert(stem_order(parts) == o);
                lemma_markdown_of_pages_congruent(parts, pre, o);
            } else {
                assert(stem_order(parts) == o.push(s));
                assert(o.push(s).drop_last() =~= o);
                assert(!has_markdown(pre, s)) by {
                    if has_markdown(pre, s) {
                        let i = choose|i: int| 0 <= i < pre.len() && #[trigger] pre[i].stem@ == s && pre[i].content is Markdown;
                        assert(part_stems(pre)[i] == s);
                    }
                }
                lemma_markdown_of_pages_congruent(parts, pre, o);
            }
        }
    }
}

/// Loads one more file into a page.
fn load_part(page: &mut PageContent, content: PartContent)
    ensures
        final(page)@ == apply_part(old(page)@, content),
{
    match content {
        PartContent::Markdown(m) => {
            page.markdown = m;
        },
        PartContent::Json(j) => {
            page.json = j;
        },
        PartContent::Css(c) => {
            page.css = c;
        },
        PartContent::Other => {},
    }
}

/// Where `stem` stands in `keys`, if it does.
fn find_stem(keys: &Vec<String>, stem: &String) -> (r: Option<usize>)
    ensures
        r matches Some(i) ==> i < keys@.len() && keys@[i as int]@ == stem@,
        r is None ==> forall|i: int| 0 <= i < keys@.len() ==> keys@[i]@ != stem@,
{
    let mut i: usize = 0;
    while i < keys.len()
        invariant
            i <= keys@.len(),
            forall|j: int| 0 <= j < i ==> keys@[j]@ != stem@,
        decreases keys.len() - i,
    {
        if keys[i] == *stem {
            return Some(i);
        }
        i = i + 1;
    }
    None
}

/// Gathers the loaded files of a content directory into pages, one per
/// distinct stem, in the order in which the stems first appear.
pub fn group_parts(parts: Vec<PagePart>) -> (r: Vec<PageContent>)
    ensures
        views(r@) == grouped_pages(parts@),
{
    let ghost all = parts@;
    let mut keys: Vec<String> = Vec::new();
    let mut pages: Vec<PageContent> = Vec::new();
    assert(all.take(0) =~= Seq::<PagePart>::empty());
    for part in it: parts
        invariant
            it.seq() == all,
            0 <= it.index() <= all.len(),
            keys@.len() == pages@.len(),
            keys@.len() == stem_order(all.take(it.index())).len(),
            forall|i: int|
                0 <= i < keys@.len() ==> #[trigger] keys@[i]@ == stem_order(all.take(it.index()))[i],
            forall|i: int|
                0 <= i < pages@.len() ==> #[trigger] pages@[i]@ == page_for(
                    all.take(it.index()),
                    stem_order(all.take(it.index()))[i],
                ),
    {
        let ghost k = it.index();
        let ghost pre = all.take(k);
        let ghost next = all.take(k + 1);
        proof {
            assert(part == all[k]);
            assert(next.drop_last() =~= pre);
            assert(next.last() == part);
            lemma_stem_order_distinct(pre);
        }
        let PagePart { stem, content } = part;
        let ghost c = content;
        match find_stem(&keys, &stem) {
            Some(j) => {
                proof {
                    assert(stem_order(pre).contains(stem@)) by {
                        assert(stem_order(pre)[j as int] == stem@);
                    }
                    assert(stem_order(next) == stem_order(pre));
                }
                let ghost old_pages = pages@;
                load_part(&mut pages[j], content);
                proof {
                    assert forall|i: int| 0 <= i < pages@.len() implies #[trigger] pages@[i]@
                        == page_for(next, stem_order(next)[i]) by {
                        if i != j {
                            assert(pages@[i] == old_pages[i]);
                            assert(stem_order(pre)[i] != stem_order(pre)[j as int]);
                        }
                    }
                }
            },
            None => {
                proof {
                    assert(!stem_order(pre).contains(stem@)) by {
                        if stem_order(pre).contains(stem@) {
                            let i = choose|i: int|
                                0 <= i < stem_order(pre).len() && stem_order(pre)[i] == stem@;
                            assert(keys@[i]@ == stem@);
                        }
                    }
                    assert(stem_order(next) == stem_order(pre).push(stem@));
                    lemma_page_for_absent(pre, stem@);
                }
                let mut page = PageContent::default();
                load_part(&mut page, content);
                keys.push(stem);
                pages.push(page);
                proof {
                    assert forall|i: int| 0 <= i < pages@.len() implies #[trigger] pages@[i]@
                        == page_for(next, stem_order(next)[i]) by {
                        if i < pages@.len() - 1 {
                            assert(stem_order(pre)[i] != stem@) by {
                                assert(keys@[i]@ == stem_order(pre)[i]);
                            }
                        }
                    }
                    assert forall|i: int| 0 <= i < keys@.len() implies #[trigger] keys@[i]@
                        == stem_order(next)[i] by {}
                }
            },
        }
    }
    assert(views(pages@) =~= grouped_pages(all)) by {
        assert(all.take(all.len() as int) =~= all);
    }
    pages
}

/// The pages of a content directory, one per distinct stem among its
/// loaded files, ordered by the creation time of their markdown: earliest
/// first, pages created at the same time in an order left open.
pub fn assemble_pages(parts: Vec<PagePart>) -> (r: Vec<PageContent>)
    ensures
        sorted_by_created::<PageContent>(views(r@)),
        forall|i: int, j: int|
            0 <= i < j < r@.len() ==> r@[i].markdown.created <= r@[j].markdown.created,
        views(r@).to_multiset() == grouped_pages(parts@).to_multiset(),
        r@.len() == stem_order(parts@).len(),
{
    let pages = group_parts(parts);
    let r = sort_by_created(pages);
    proof {
        lemma_pages_sorted_by_markdown_creation(r@);
        broadcast use vstd::seq_lib::group_to_multiset_ensures;
        assert(views(r@).len() == r@.len());
        assert(views(r@).to_multiset().len() == views(r@).len());
        assert(grouped_pages(parts@).to_multiset().len() == grouped_pages(parts@).len());
    }
    r
}

} // verus!
