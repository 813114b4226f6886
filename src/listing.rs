//! The category index and the per-category listing pages.

use vstd::prelude::*;
use crate::book_page::path1;
use crate::dom::{
    attr_of, children_of, doc_matches, elem_attr, elem_children, elem_matches, get_selector,
    select_in, select_in_document, selector_ok, sib_views, Document, NodeView, PatternError,
    Sibling,
};
use crate::number::{dec_text, int_of, parse_i32, u64_text};
use crate::text::{chars_of, is_text, str_views, string_of, trim_chars, trimmed};

verus! {

pub open spec fn table_pat() -> Seq<char> {
    r#"table[class="tagCol"]"#@
}

pub open spec fn present(o: Option<Seq<char>>) -> Seq<Seq<char>> {
    match o {
        Some(h) => seq![h],
        None => Seq::empty(),
    }
}

/// The hrefs of the first `n` anchors below `tp` that have one, in order.
pub open spec fn anchor_hrefs(m: Seq<char>, tp: Seq<(Seq<char>, nat)>, n: nat) -> Seq<Seq<char>>
    decreases n,
{
    if n == 0 {
        Seq::empty()
    } else {
        anchor_hrefs(m, tp, (n - 1) as nat) + present(
            elem_attr(m, tp.push(("a"@, (n - 1) as nat)), "href"@),
        )
    }
}

/// The anchor hrefs of the first `n` category tables, table by table.
pub open spec fn table_hrefs(m: Seq<char>, n: nat) -> Seq<Seq<char>>
    decreases n,
{
    if n == 0 {
        Seq::empty()
    } else {
        let tp = path1(table_pat()).update(0, (table_pat(), (n - 1) as nat));
        table_hrefs(m, (n - 1) as nat) + anchor_hrefs(m, tp, elem_matches(m, tp, "a"@))
    }
}

/// The category paths of the index page: the href of every anchor inside each
/// category table, in document order, duplicates kept.
pub fn parse_root_page(markup: &str) -> (r: Result<Vec<String>, PatternError>)
    ensures
        r is Ok <==> selector_ok(table_pat()) && selector_ok("a"@),
        r matches Ok(v) ==> str_views(v@) == table_hrefs(markup@, doc_matches(markup@, table_pat())),
{
    let document = Document::parse(markup);
    let table_selector = match get_selector(r#"table[class="tagCol"]"#) {
        Ok(s) => s,
        Err(e) => return Err(e),
    };
    let a_selector = match get_selector("a") {
        Ok(s) => s,
        Err(e) => return Err(e),
    };
    let ghost m = markup@;
    let mut tags_href: Vec<String> = Vec::new();
    let tables = select_in_document(&document, &table_selector);
    let mut i: usize = 0;
    assert(str_views(tags_href@) =~= table_hrefs(m, 0));
    while i < tables.len()
        invariant
            i <= tables@.len(),
            m == document.markup(),
            a_selector.text() == "a"@,
            tables@.len() == doc_matches(m, table_pat()),
            forall|k: int|
                0 <= k < tables@.len() ==> (#[trigger] tables@[k]).markup() == m
                    && tables@[k].path() == seq![(table_pat(), k as nat)],
            str_views(tags_href@) == table_hrefs(m, i as nat),
        decreases tables@.len() - i,
    {
        let ghost tp = tables@[i as int].path();
        assert(tp =~= path1(table_pat()).update(0, (table_pat(), i as nat)));
        let ghost start = str_views(tags_href@);
        assert(tables@[i as int].markup() == m);
        let anchors = select_in(&tables[i], &a_selector);
        let mut j: usize = 0;
        assert(start + anchor_hrefs(m, tp, 0) =~= start);
        while j < anchors.len()
            invariant
                j <= anchors@.len(),
                anchors@.len() == elem_matches(m, tp, "a"@),
                forall|k: int|
                    0 <= k < anchors@.len() ==> (#[trigger] anchors@[k]).markup() == m
                        && anchors@[k].path() == tp.push(("a"@, k as nat)),
                str_views(tags_href@) == start + anchor_hrefs(m, tp, j as nat),
            decreases anchors@.len() - j,
        {
            let ghost before = str_views(tags_href@);
            match attr_of(&anchors[j], "href") {
                Some(href) => {
                    tags_href.push(href);
                    assert(str_views(tags_href@) =~= before + seq![tags_href@.last()@]);
                },
                None => {
                    assert(before + Seq::<Seq<char>>::empty() =~= before);
                },
            }
            assert(start + anchor_hrefs(m, tp, (j + 1) as nat) =~= start + anchor_hrefs(
                m,
                tp,
                j as nat,
            ) + present(elem_attr(m, tp.push(("a"@, j as nat)), "href"@)));
            j += 1;
        }
        assert(table_hrefs(m, (i + 1) as nat) =~= start + anchor_hrefs(m, tp, elem_matches(m, tp, "a"@)));
        i += 1;
    }
    Ok(tags_href)
}

/// What a child of the paginator contributes: an anchor's first text piece, trimmed.
pub open spec fn anchor_text(n: NodeView) -> Option<Seq<char>> {
    match n {
        NodeView::Element { name, texts } => if name == "a"@ && texts.len() > 0 {
            Some(trimmed(texts[0]))
        } else {
            None
        },
        _ => None,
    }
}

/// The anchor texts among `children`, in order.
pub open spec fn anchor_texts(children: Seq<NodeView>) -> Seq<Seq<char>>
    decreases children.len(),
{
    if children.len() == 0 {
        Seq::empty()
    } else {
        anchor_texts(children.drop_last()) + match anchor_text(children.last()) {
            Some(t) => seq![t],
            None => Seq::empty(),
        }
    }
}

/// The trimmed first text piece of each anchor among the direct children.
pub fn parse_children_a_texts(children: &Vec<Sibling>) -> (r: Vec<String>)
    ensures
        str_views(r@) == anchor_texts(sib_views(children@)),
{
    let ghost vs = sib_views(children@);
    let mut out: Vec<String> = Vec::new();
    let mut i: usize = 0;
    assert(str_views(out@) =~= anchor_texts(vs.subrange(0, 0)));
    while i < children.len()
        invariant
            i <= children@.len(),
            vs == sib_views(children@),
            str_views(out@) == anchor_texts(vs.subrange(0, i as int)),
        decreases children@.len() - i,
    {
        let ghost pre = vs.subrange(0, i + 1);
        assert(pre.drop_last() =~= vs.subrange(0, i as int));
        assert(pre.last() == children@[i as int]@);
        let ghost before = str_views(out@);
        match &children[i] {
            Sibling::Element { name, texts } => {
                if is_text(name.as_str(), "a") && texts.len() > 0 {
                    assert(str_views(texts@)[0] == texts@[0]@);
                    out.push(string_of(&trim_chars(&chars_of(texts[0].as_str()))));
                    assert(str_views(out@) =~= before + seq![trimmed(texts@[0]@)]);
                } else {
                    assert(before + Seq::<Seq<char>>::empty() =~= before);
                }
            },
            _ => {
                assert(before + Seq::<Seq<char>>::empty() =~= before);
            },
        }
        i += 1;
    }
    assert(vs.subrange(0, children@.len() as int) =~= vs);
    out
}

/// The last of `texts` that reads as an integer, or 0 where none does.
pub open spec fn last_number(texts: Seq<Seq<char>>) -> int
    decreases texts.len(),
{
    if texts.len() == 0 {
        0
    } else {
        match int_of(texts.last()) {
            Some(v) => v,
            None => last_number(texts.drop_last()),
        }
    }
}

/// The page count that the paginator's anchor texts give: the last one that reads
/// as an integer (not the largest), 0 where none does.
pub fn last_page_number(texts: &Vec<String>) -> (r: i32)
    ensures
        r as int == last_number(str_views(texts@)),
{
    let mut j: usize = texts.len();
    assert(str_views(texts@).subrange(0, texts@.len() as int) =~= str_views(texts@));
    while j > 0
        invariant
            j <= texts@.len(),
            last_number(str_views(texts@)) == last_number(str_views(texts@).subrange(0, j as int)),
        decreases j,
    {
        let ghost pre = str_views(texts@).subrange(0, j as int);
        assert(pre.last() == texts@[j - 1]@);
        assert(pre.drop_last() =~= str_views(texts@).subrange(0, j - 1));
        match parse_i32(&chars_of(texts[j - 1].as_str())) {
            Some(v) => return v,
            None => {},
        }
        j -= 1;
    }
    0
}

/// The page count that a paginator gives: 0 where there is none, else the last
/// of its direct child anchors whose text reads as an integer (0 where none does).
pub open spec fn page_count(children: Option<Seq<NodeView>>) -> int {
    match children {
        Some(c) => last_number(anchor_texts(c)),
        None => 0,
    }
}

/// The page count from the direct children of the paginator, if there is one.
pub fn page_count_of(children: &Option<Vec<Sibling>>) -> (r: i32)
    ensures
        r as int == page_count(
            match children {
                Some(c) => Some(sib_views(c@)),
                None => None,
            },
        ),
{
    match children {
        Some(c) => last_page_number(&parse_children_a_texts(c)),
        None => 0,
    }
}

pub open spec fn paginator_pat() -> Seq<char> {
    r#"div[class="paginator"]"#@
}

/// The page count of a category's listing: read from the direct child anchors of
/// the first paginator; 0 where there is no paginator.
pub fn get_max_tag_page_count(markup: &str) -> (r: Result<i32, PatternError>)
    ensures
        r is Ok <==> selector_ok(paginator_pat()),
        r matches Ok(n) ==> n as int == page_count(
            if doc_matches(markup@, paginator_pat()) > 0 {
                Some(elem_children(markup@, path1(paginator_pat())))
            } else {
                None
            },
        ),
{
    let document = Document::parse(markup);
    let paginator_selector = match get_selector(r#"div[class="paginator"]"#) {
        Ok(s) => s,
        Err(e) => return Err(e),
    };
    let paginators = select_in_document(&document, &paginator_selector);
    let children = if paginators.len() > 0 {
        Some(children_of(&paginators[0]))
    } else {
        None
    };
    Ok(page_count_of(&children))
}

/// The non-empty values of `hrefs`, in order.
pub open spec fn present_paths(hrefs: Seq<Option<Seq<char>>>) -> Seq<Seq<char>>
    decreases hrefs.len(),
{
    if hrefs.len() == 0 {
        Seq::empty()
    } else {
        present_paths(hrefs.drop_last()) + match hrefs.last() {
            Some(h) => if h.len() > 0 {
                seq![h]
            } else {
                Seq::empty()
            },
            None => Seq::empty(),
        }
    }
}

pub open spec fn opt_str_views(v: Seq<Option<String>>) -> Seq<Option<Seq<char>>> {
    v.map_values(
        |x: Option<String>|
            match x {
                Some(s) => Some(s@),
                None => None,
            },
    )
}

/// Keeps the book paths that are present and non-empty, in order.
pub fn book_paths(hrefs: Vec<Option<String>>) -> (r: Vec<String>)
    ensures
        str_views(r@) == present_paths(opt_str_views(hrefs@)),
{
    let ghost all = opt_str_views(hrefs@);
    let mut out: Vec<String> = Vec::new();
    let mut i: usize = 0;
    assert(str_views(out@) =~= present_paths(all.subrange(0, 0)));
    while i < hrefs.len()
        invariant
            i <= hrefs@.len(),
            all == opt_str_views(hrefs@),
            str_views(out@) == present_paths(all.subrange(0, i as int)),
        decreases hrefs@.len() - i,
    {
        let ghost pre = all.subrange(0, i + 1);
        assert(pre.drop_last() =~= all.subrange(0, i as int));
        assert(pre.last() == all[i as int]);
        let ghost before = str_views(out@);
        match &hrefs[i] {
            Some(h) => {
                if h.as_str().unicode_len() > 0 {
                    out.push(h.clone());
                    assert(str_views(out@) =~= before + seq![h@]);
                } else {
                    assert(before + Seq::<Seq<char>>::empty() =~= before);
                }
            },
            None => {
                assert(before + Seq::<Seq<char>>::empty() =~= before);
            },
        }
        i += 1;
    }
    assert(all.subrange(0, hrefs@.len() as int) =~= all);
    out
}

pub open spec fn entry_pat() -> Seq<char> {
    r#"li[class="subject-item"]"#@
}

/// What a catalogue entry at `ep` holds: the href, if any, of the first anchor of
/// its first heading; `None` where there is no such anchor.
pub open spec fn entry_href(m: Seq<char>, ep: Seq<(Seq<char>, nat)>) -> Option<Option<Seq<char>>> {
    if elem_matches(m, ep, "h2"@) > 0 {
        let hp = ep.push(("h2"@, 0nat));
        if elem_matches(m, hp, "a"@) > 0 {
            Some(elem_attr(m, hp.push(("a"@, 0nat)), "href"@))
        } else {
            None
        }
    } else {
        None
    }
}

/// The hrefs of the first `n` catalogue entries that have a heading anchor.
pub open spec fn entry_hrefs(m: Seq<char>, n: nat) -> Seq<Option<Seq<char>>>
    decreases n,
{
    if n == 0 {
        Seq::empty()
    } else {
        entry_hrefs(m, (n - 1) as nat) + match entry_href(
            m,
            path1(entry_pat()).update(0, (entry_pat(), (n - 1) as nat)),
        ) {
            Some(h) => seq![h],
            None => Seq::empty(),
        }
    }
}

/// The book paths of a listing page: the href of the first anchor of the first
/// heading of each catalogue entry, in order; entries without one are skipped.
pub fn parse_tag_page(markup: &str) -> (r: Result<Vec<String>, PatternError>)
    ensures
        r is Ok <==> selector_ok(entry_pat()) && selector_ok("h2"@) && selector_ok("a"@),
        r matches Ok(v) ==> str_views(v@) == present_paths(
            entry_hrefs(markup@, doc_matches(markup@, entry_pat())),
        ),
        r matches Ok(v) ==> forall|i: int| 0 <= i < v@.len() ==> v@[i]@.len() > 0,
{
    let document = Document::parse(markup);
    let li_selector = match get_selector(r#"li[class="subject-item"]"#) {
        Ok(s) => s,
        Err(e) => return Err(e),
    };
    let h2_selector = match get_selector("h2") {
        Ok(s) => s,
        Err(e) => return Err(e),
    };
    let a_selector = match get_selector("a") {
        Ok(s) => s,
        Err(e) => return Err(e),
    };
    let ghost m = markup@;
    assert(h2_selector.text() == "h2"@ && a_selector.text() == "a"@);
    let items = select_in_document(&document, &li_selector);
    let mut hrefs: Vec<Option<String>> = Vec::new();
    let mut i: usize = 0;
    assert(opt_str_views(hrefs@) =~= entry_hrefs(m, 0));
    while i < items.len()
        invariant
            i <= items@.len(),
            m == document.markup(),
            h2_selector.text() == "h2"@,
            a_selector.text() == "a"@,
            items@.len() == doc_matches(m, entry_pat()),
            forall|k: int|
                0 <= k < items@.len() ==> (#[trigger] items@[k]).markup() == m
                    && items@[k].path() == seq![(entry_pat(), k as nat)],
            opt_str_views(hrefs@) == entry_hrefs(m, i as nat),
        decreases items@.len() - i,
    {
        let ghost ep = items@[i as int].path();
        assert(ep =~= path1(entry_pat()).update(0, (entry_pat(), i as nat)));
        let ghost before = opt_str_views(hrefs@);
        assert(items@[i as int].markup() == m);
        let headings = select_in(&items[i], &h2_selector);
        if headings.len() > 0 {
            assert(headings@[0].markup() == m);
            assert(headings@[0].path() == ep.push(("h2"@, 0nat)));
            let anchors = select_in(&headings[0], &a_selector);
            if anchors.len() > 0 {
                assert(anchors@[0].markup() == m);
                assert(anchors@[0].path() == ep.push(("h2"@, 0nat)).push(("a"@, 0nat)));
                let h = attr_of(&anchors[0], "href");
                hrefs.push(h);
                assert(opt_str_views(hrefs@) =~= before + seq![entry_href(m, ep)->0]);
            } else {
                assert(entry_href(m, ep) is None);
                assert(before + Seq::<Option<Seq<char>>>::empty() =~= before);
            }
        } else {
            assert(entry_href(m, ep) is None);
            assert(before + Seq::<Option<Seq<char>>>::empty() =~= before);
        }
        i += 1;
    }
    let paths = book_paths(hrefs);
    proof {
        lemma_present_paths_nonempty(opt_str_views(hrefs@));
        assert forall|i: int| 0 <= i < paths@.len() implies paths@[i]@.len() > 0 by {
            assert(str_views(paths@)[i] == paths@[i]@);
        }
    }
    Ok(paths)
}

pub proof fn lemma_present_paths_nonempty(hrefs: Seq<Option<Seq<char>>>)
    ensures
        forall|i: int|
            0 <= i < present_paths(hrefs).len() ==> #[trigger] present_paths(hrefs)[i].len() > 0,
    decreases hrefs.len(),
{
    if hrefs.len() > 0 {
        lemma_present_paths_nonempty(hrefs.drop_last());
        let prev = present_paths(hrefs.drop_last());
        let all = present_paths(hrefs);
        assert forall|i: int| 0 <= i < all.len() implies #[trigger] all[i].len() > 0 by {
            if i < prev.len() {
                assert(all[i] == prev[i]);
            }
        }
    }
}


/// The number of books on one listing page.
pub const COUNT_PER_PAGE: u64 = 20;

/// The address of a category from its path on the index page.
pub fn category_url(tag_href: &str) -> (r: String)
    ensures
        r@ == "https://book.douban.com"@ + tag_href@,
{
    let mut r = String::from_str("https://book.douban.com");
    r.append(tag_href);
    r
}

/// The address of listing page `idx` (from 0) of a category.
pub fn tag_page_url(tag_url: &str, idx: u32) -> (r: String)
    ensures
        r@ == tag_url@ + "?start="@ + dec_text(idx as nat * 20) + "&type=T"@,
{
    let mut r = String::from_str(tag_url);
    r.append("?start=");
    r.append(string_of(&u64_text(idx as u64 * COUNT_PER_PAGE)).as_str());
    r.append("&type=T");
    r
}

/// The referrer of listing page `idx`: the category itself for the first page,
/// the page before it for the others.
pub fn tag_page_referrer(tag_url: &str, idx: u32) -> (r: String)
    ensures
        idx == 0 ==> r@ == tag_url@,
        idx > 0 ==> r@ == tag_url@ + "?start="@ + dec_text((idx - 1) as nat * 20) + "&type=T"@,
{
    if idx == 0 {
        String::from_str(tag_url)
    } else {
        tag_page_url(tag_url, idx - 1)
    }
}

} // verus!
