//! Discovery of candidate endpoints on public proxy-listing pages.

use vstd::prelude::*;
use crate::book_page::nonblank;
use crate::number::{dec_text, u64_text};
use crate::book_page::{first_texts, first_texts_at, intro_views, opt_views, path1, texts_each, texts_of_each};
use crate::dom::{
    doc_matches, elem_matches, get_selector, select_in, select_in_document, selector_ok,
    Document, Elem, PatternError,
};
use crate::proxy::{address, proxy_views, ProxyInfo, ProxyView};
use crate::text::{chars_of, str_views, string_of, trim_chars, trimmed};

verus! {

/// Why a listing page gave no endpoints.
#[derive(Debug, PartialEq, Eq)]
pub enum ProxyPageError {
    /// A malformed extraction pattern.
    Pattern(PatternError),
    /// The page has no table body.
    NoTable,
    /// A row lacks one of the expected cells.
    MissingCell,
}

/// The first piece that is not blank, as it stands; empty where all are blank.
pub open spec fn first_nonblank_raw(texts: Seq<Seq<char>>) -> Seq<char>
    decreases texts.len(),
{
    if texts.len() == 0 {
        Seq::empty()
    } else if trimmed(texts[0]).len() > 0 {
        texts[0]
    } else {
        first_nonblank_raw(texts.drop_first())
    }
}

/// The value of a cell of the first listing format: its first non-blank text piece.
pub fn parse_kuaidaili_proxy_info_from_tr_inner(texts: &Vec<String>) -> (r: String)
    ensures
        r@ == first_nonblank_raw(str_views(texts@)),
{
    let ghost all = str_views(texts@);
    let mut i: usize = 0;
    assert(all.subrange(0, texts@.len() as int) =~= all);
    while i < texts.len()
        invariant
            i <= texts@.len(),
            all == str_views(texts@),
            first_nonblank_raw(all) == first_nonblank_raw(all.subrange(i as int, all.len() as int)),
        decreases texts@.len() - i,
    {
        let ghost rest = all.subrange(i as int, all.len() as int);
        assert(rest[0] == texts@[i as int]@);
        assert(rest.drop_first() =~= all.subrange(i + 1, all.len() as int));
        if trim_chars(&chars_of(texts[i].as_str())).len() > 0 {
            return texts[i].clone();
        }
        i += 1;
    }
    String::new()
}

/// The value of a cell, where the cell is there.
pub open spec fn cell_of(cell: Option<Seq<Seq<char>>>) -> Option<Seq<char>> {
    match cell {
        Some(t) => Some(first_nonblank_raw(t)),
        None => None,
    }
}

pub open spec fn cell_value(cell: Option<Vec<String>>) -> Option<Seq<char>> {
    cell_of(opt_views(cell))
}

/// The endpoint of a row of the first format from its six cells: address, port,
/// scheme, last-verified, anonymity and location; `None` where one is missing.
pub open spec fn row_of(cs: Seq<Option<Seq<Seq<char>>>>) -> Option<ProxyView> {
    if forall|k: int| 0 <= k < 6 ==> (#[trigger] cs[k]) is Some {
        Some(
            ProxyView {
                ip: cell_of(cs[0])->0,
                port: cell_of(cs[1])->0,
                scheme: cell_of(cs[2])->0,
                last_verified: cell_of(cs[3])->0,
                anonymous: cell_of(cs[4])->0,
                position: cell_of(cs[5])->0,
            },
        )
    } else {
        None
    }
}

/// The cell patterns of the first format, in the order of `row_of`.
pub open spec fn kd_pat(k: int) -> Seq<char> {
    if k == 0 {
        r#"td[data-title="IP"]"#@
    } else if k == 1 {
        r#"td[data-title="PORT"]"#@
    } else if k == 2 {
        r#"td[data-title="类型"]"#@
    } else if k == 3 {
        r#"td[data-title="最后验证时间"]"#@
    } else if k == 4 {
        r#"td[data-title="匿名度"]"#@
    } else {
        r#"td[data-title="位置"]"#@
    }
}

pub open spec fn kd_patterns_ok() -> bool {
    forall|k: int| 0 <= k < 6 ==> selector_ok(#[trigger] kd_pat(k))
}

/// The endpoint of the row at `path`, where every cell pattern is well formed.
pub open spec fn kd_row(m: Seq<char>, path: Seq<(Seq<char>, nat)>) -> Option<ProxyView> {
    if kd_patterns_ok() {
        row_of(Seq::new(6, |k: int| first_texts_at(m, path, kd_pat(k))))
    } else {
        None
    }
}

/// The values present, in order.
pub open spec fn somes(os: Seq<Option<ProxyView>>) -> Seq<ProxyView>
    decreases os.len(),
{
    if os.len() == 0 {
        Seq::empty()
    } else {
        somes(os.drop_last()) + match os.last() {
            Some(p) => seq![p],
            None => Seq::empty(),
        }
    }
}

/// The endpoints of a page of the first format, or `None` where the page cannot be
/// read: a malformed pattern or no table body.
pub open spec fn kd_page(m: Seq<char>) -> Option<Seq<ProxyView>> {
    if !selector_ok("tbody"@) || doc_matches(m, "tbody"@) == 0 || !selector_ok("tr"@) {
        None
    } else {
        let bp = path1("tbody"@);
        Some(somes(Seq::new(elem_matches(m, bp, "tr"@), |k: int| kd_row(m, bp.push(("tr"@, k as nat))))))
    }
}

/// The endpoints of pages of the first format, page by page, unreadable pages
/// skipped.
pub open spec fn kd_all(pages: Seq<Seq<char>>) -> Seq<ProxyView>
    decreases pages.len(),
{
    if pages.len() == 0 {
        Seq::empty()
    } else {
        kd_all(pages.drop_last()) + match kd_page(pages.last()) {
            Some(v) => v,
            None => Seq::empty(),
        }
    }
}

pub open spec fn cell_views(cells: Seq<Option<Vec<String>>>) -> Seq<Option<Seq<Seq<char>>>> {
    cells.map_values(|c: Option<Vec<String>>| opt_views(c))
}

/// The endpoint of a row of the first listing format from its six cells.
pub fn kuaidaili_proxy(cells: &Vec<Option<Vec<String>>>) -> (r: Option<ProxyInfo>)
    requires
        cells@.len() == 6,
    ensures
        match r {
            Some(p) => row_of(cell_views(cells@)) == Some(p@),
            None => row_of(cell_views(cells@)) is None,
        },
{
    let ghost cs = cell_views(cells@);
    let mut vals: Vec<String> = Vec::new();
    let mut i: usize = 0;
    while i < 6
        invariant
            cells@.len() == 6,
            cs == cell_views(cells@),
            i <= 6,
            vals@.len() == i,
            forall|k: int| 0 <= k < i ==> (#[trigger] cells@[k]) is Some,
            forall|k: int| 0 <= k < i ==> Some(#[trigger] vals@[k]@) == cell_value(cells@[k]),
        decreases 6 - i,
    {
        assert(cs[i as int] == opt_views(cells@[i as int]));
        match &cells[i] {
            Some(t) => vals.push(parse_kuaidaili_proxy_info_from_tr_inner(t)),
            None => {
                assert(cs[i as int] is None);
                return None;
            },
        }
        i += 1;
    }
    assert forall|k: int| 0 <= k < 6 implies (#[trigger] cs[k]) is Some by {
        assert(cs[k] == opt_views(cells@[k]));
    }
    assert(forall|k: int| 0 <= k < 6 ==> cs[k] == opt_views(cells@[k]));
    let p = ProxyInfo {
        ip: vals[0].clone(),
        port: vals[1].clone(),
        scheme: vals[2].clone(),
        last_verified: vals[3].clone(),
        anonymous: vals[4].clone(),
        position: vals[5].clone(),
    };
    Some(p)
}

/// The endpoint of one row of the first listing format.
pub fn parse_kuaidaili_proxy_info_from_tr(tr: &Elem) -> (r: Result<ProxyInfo, ProxyPageError>)
    ensures
        !kd_patterns_ok() ==> r is Err,
        kd_patterns_ok() ==> (r is Ok <==> kd_row(tr.markup(), tr.path()) is Some),
        r matches Ok(p) ==> kd_row(tr.markup(), tr.path()) == Some(p@),
{
    let patterns = vec![
        r#"td[data-title="IP"]"#,
        r#"td[data-title="PORT"]"#,
        r#"td[data-title="类型"]"#,
        r#"td[data-title="最后验证时间"]"#,
        r#"td[data-title="匿名度"]"#,
        r#"td[data-title="位置"]"#,
    ];
    assert(patterns@[0]@ == kd_pat(0) && patterns@[1]@ == kd_pat(1) && patterns@[2]@ == kd_pat(2));
    assert(patterns@[3]@ == kd_pat(3) && patterns@[4]@ == kd_pat(4) && patterns@[5]@ == kd_pat(5));
    let ghost m = tr.markup();
    let ghost path = tr.path();
    let mut cells: Vec<Option<Vec<String>>> = Vec::new();
    let mut i: usize = 0;
    while i < patterns.len()
        invariant
            patterns@.len() == 6,
            forall|k: int| 0 <= k < 6 ==> (#[trigger] patterns@[k])@ == kd_pat(k),
            m == tr.markup(),
            path == tr.path(),
            cells@.len() == i,
            i <= 6,
            forall|k: int| 0 <= k < i ==> selector_ok(#[trigger] kd_pat(k)),
            forall|k: int|
                0 <= k < i ==> opt_views(#[trigger] cells@[k]) == first_texts_at(m, path, kd_pat(k)),
        decreases 6 - i,
    {
        let sel = match get_selector(patterns[i]) {
            Ok(s) => s,
            Err(e) => {
                assert(!selector_ok(kd_pat(i as int)));
                return Err(ProxyPageError::Pattern(e));
            },
        };
        cells.push(first_texts(tr, &sel));
        i += 1;
    }
    let ghost want = Seq::new(6, |k: int| first_texts_at(m, path, kd_pat(k)));
    assert(cell_views(cells@) =~= want);
    match kuaidaili_proxy(&cells) {
        Some(p) => Ok(p),
        None => Err(ProxyPageError::MissingCell),
    }
}

/// The endpoints of a page of the first listing format: one per row of its first
/// table body; rows that cannot be read are skipped.
pub fn parse_kuaidaili_proxy_info_from_page(markup: &str) -> (r: Result<Vec<ProxyInfo>, ProxyPageError>)
    ensures
        r is Ok <==> kd_page(markup@) is Some,
        r matches Ok(v) ==> proxy_views(v@) == kd_page(markup@)->0,
        r == Err::<Vec<ProxyInfo>, ProxyPageError>(ProxyPageError::NoTable) <== (selector_ok(
            "tbody"@,
        ) && doc_matches(markup@, "tbody"@) == 0),
{
    let document = Document::parse(markup);
    let tbody_selector = match get_selector("tbody") {
        Ok(s) => s,
        Err(e) => return Err(ProxyPageError::Pattern(e)),
    };
    let bodies = select_in_document(&document, &tbody_selector);
    if bodies.len() == 0 {
        return Err(ProxyPageError::NoTable);
    }
    let tr_selector = match get_selector("tr") {
        Ok(s) => s,
        Err(e) => return Err(ProxyPageError::Pattern(e)),
    };
    let ghost m = markup@;
    let ghost bp = path1("tbody"@);
    assert(bodies@[0].markup() == m && bodies@[0].path() == bp);
    let rows = select_in(&bodies[0], &tr_selector);
    let ghost rs = Seq::new(elem_matches(m, bp, "tr"@), |k: int| kd_row(m, bp.push(("tr"@, k as nat))));
    let mut out: Vec<ProxyInfo> = Vec::new();
    let mut i: usize = 0;
    assert(proxy_views(out@) =~= somes(rs.subrange(0, 0)));
    while i < rows.len()
        invariant
            i <= rows@.len(),
            rows@.len() == rs.len(),
            tr_selector.text() == "tr"@,
            forall|k: int|
                0 <= k < rows@.len() ==> (#[trigger] rows@[k]).markup() == m && rows@[k].path()
                    == bp.push(("tr"@, k as nat)),
            rs == Seq::new(elem_matches(m, bp, "tr"@), |k: int| kd_row(m, bp.push(("tr"@, k as nat)))),
            proxy_views(out@) == somes(rs.subrange(0, i as int)),
        decreases rows@.len() - i,
    {
        assert(rows@[i as int].markup() == m);
        let ghost pre = rs.subrange(0, i + 1);
        assert(pre.drop_last() =~= rs.subrange(0, i as int));
        assert(pre.last() == kd_row(m, bp.push(("tr"@, i as nat))));
        let ghost before = proxy_views(out@);
        match parse_kuaidaili_proxy_info_from_tr(&rows[i]) {
            Ok(p) => {
                out.push(p);
                assert(proxy_views(out@) =~= before + seq![out@.last()@]);
            },
            Err(_) => {
                assert(before + Seq::<ProxyView>::empty() =~= before);
            },
        }
        i += 1;
    }
    assert(rs.subrange(0, rows@.len() as int) =~= rs);
    Ok(out)
}

/// The endpoints of fetched pages of the first listing format, page by page;
/// pages that cannot be read are skipped.
pub fn parse_kuaidaili_proxy_info(pages: &Vec<String>) -> (r: Vec<ProxyInfo>)
    ensures
        proxy_views(r@) == kd_all(str_views(pages@)),
{
    let ghost ps = str_views(pages@);
    let mut out: Vec<ProxyInfo> = Vec::new();
    let mut i: usize = 0;
    assert(proxy_views(out@) =~= kd_all(ps.subrange(0, 0)));
    while i < pages.len()
        invariant
            i <= pages@.len(),
            ps == str_views(pages@),
            proxy_views(out@) == kd_all(ps.subrange(0, i as int)),
        decreases pages@.len() - i,
    {
        let ghost pre = ps.subrange(0, i + 1);
        assert(pre.drop_last() =~= ps.subrange(0, i as int));
        assert(pre.last() == pages@[i as int]@);
        let ghost before = proxy_views(out@);
        match parse_kuaidaili_proxy_info_from_page(pages[i].as_str()) {
            Ok(mut v) => {
                let ghost added = proxy_views(v@);
                out.append(&mut v);
                assert(proxy_views(out@) =~= before + added);
            },
            Err(_) => {
                assert(before + Seq::<ProxyView>::empty() =~= before);
            },
        }
        i += 1;
    }
    assert(ps.subrange(0, pages@.len() as int) =~= ps);
    out
}

/// The value of a cell of the second listing format: its first non-blank text
/// piece, trimmed; `None` where all are blank.
pub fn parse_xicidaili_proxy_info_from_td(texts: &Vec<String>) -> (r: Option<String>)
    ensures
        match r {
            Some(s) => nonblank(str_views(texts@)).len() > 0 && s@ == nonblank(
                str_views(texts@),
            )[0],
            None => nonblank(str_views(texts@)).len() == 0,
        },
{
    let mut i: usize = 0;
    while i < texts.len()
        invariant
            i <= texts@.len(),
            nonblank(str_views(texts@.subrange(0, i as int))).len() == 0,
        decreases texts@.len() - i,
    {
        let t = trim_chars(&chars_of(texts[i].as_str()));
        let ghost pre = str_views(texts@.subrange(0, i + 1));
        assert(pre.drop_last() =~= str_views(texts@.subrange(0, i as int)));
        assert(pre.last() == texts@[i as int]@);
        if t.len() > 0 {
            proof {
                assert(nonblank(pre) == nonblank(pre.drop_last()).push(trimmed(pre.last())));
                assert(nonblank(pre)[0] == t@);
                lemma_nonblank_prefix(str_views(texts@), i + 1);
                assert(str_views(texts@).subrange(0, i + 1) =~= pre);
                assert(nonblank(str_views(texts@))[0] == t@);
            }
            return Some(string_of(&t));
        }
        i += 1;
    }
    assert(str_views(texts@.subrange(0, texts@.len() as int)) =~= str_views(texts@));
    None
}

/// The non-blank pieces of a prefix come first among those of the whole.
pub proof fn lemma_nonblank_prefix(texts: Seq<Seq<char>>, k: int)
    requires
        0 <= k <= texts.len(),
    ensures
        nonblank(texts.subrange(0, k)).len() <= nonblank(texts).len(),
        forall|i: int|
            0 <= i < nonblank(texts.subrange(0, k)).len() ==> #[trigger] nonblank(
                texts.subrange(0, k),
            )[i] == nonblank(texts)[i],
    decreases texts.len(),
{
    if k < texts.len() {
        lemma_nonblank_prefix(texts.drop_last(), k);
        assert(texts.drop_last().subrange(0, k) =~= texts.subrange(0, k));
    } else {
        assert(texts.subrange(0, k) =~= texts);
    }
}

/// The endpoint of a row of the second listing format: the cell after the country
/// gives the address, the next one the port; `None` where either is missing or
/// blank.
pub fn xicidaili_proxy(cells: &Vec<Vec<String>>) -> (r: Option<ProxyInfo>)
    ensures
        match r {
            Some(p) => xici_cells(intro_views(cells@)) == Some(p@),
            None => xici_cells(intro_views(cells@)) is None,
        },
        match r {
            Some(p) => cells@.len() >= 3 && nonblank(str_views(cells@[1]@)).len() > 0 && nonblank(
                str_views(cells@[2]@),
            ).len() > 0 && p@ == address(
                nonblank(str_views(cells@[1]@))[0],
                nonblank(str_views(cells@[2]@))[0],
            ),
            None => cells@.len() < 3 || nonblank(str_views(cells@[1]@)).len() == 0 || nonblank(
                str_views(cells@[2]@),
            ).len() == 0,
        },
{
    if cells.len() < 3 {
        return None;
    }
    assert(intro_views(cells@)[1] == str_views(cells@[1]@));
    assert(intro_views(cells@)[2] == str_views(cells@[2]@));
    let ip = match parse_xicidaili_proxy_info_from_td(&cells[1]) {
        Some(v) => v,
        None => return None,
    };
    let port = match parse_xicidaili_proxy_info_from_td(&cells[2]) {
        Some(v) => v,
        None => return None,
    };
    Some(ProxyInfo::from_address(ip, port))
}

/// The endpoint of a row of the second format from the text pieces of its cells:
/// the cell after the country gives the address, the next one the port.
pub open spec fn xici_cells(cells: Seq<Seq<Seq<char>>>) -> Option<ProxyView> {
    if cells.len() >= 3 && nonblank(cells[1]).len() > 0 && nonblank(cells[2]).len() > 0 {
        Some(address(nonblank(cells[1])[0], nonblank(cells[2])[0]))
    } else {
        None
    }
}

/// The endpoint of the row at `path`.
pub open spec fn xici_row(m: Seq<char>, path: Seq<(Seq<char>, nat)>) -> Option<ProxyView> {
    xici_cells(texts_each(m, path, "td"@))
}

pub open spec fn odd_pat() -> Seq<char> {
    r#"tr[class="odd"]"#@
}

pub open spec fn even_pat() -> Seq<char> {
    r#"tr[class=""]"#@
}

/// The endpoints of the rows of the document that `p` matches, in order.
pub open spec fn xici_doc(m: Seq<char>, p: Seq<char>) -> Seq<ProxyView> {
    somes(Seq::new(doc_matches(m, p), |k: int| xici_row(m, seq![(p, k as nat)])))
}

/// The endpoints of a page of the second format, odd rows then even rows; `None`
/// where a pattern is malformed.
pub open spec fn xici_page(m: Seq<char>) -> Option<Seq<ProxyView>> {
    if selector_ok(odd_pat()) && selector_ok(even_pat()) && selector_ok("td"@) {
        Some(xici_doc(m, odd_pat()) + xici_doc(m, even_pat()))
    } else {
        None
    }
}

/// The endpoints of pages of the second format, page by page, unreadable pages
/// skipped.
pub open spec fn xici_all(pages: Seq<Seq<char>>) -> Seq<ProxyView>
    decreases pages.len(),
{
    if pages.len() == 0 {
        Seq::empty()
    } else {
        xici_all(pages.drop_last()) + match xici_page(pages.last()) {
            Some(v) => v,
            None => Seq::empty(),
        }
    }
}

pub open spec fn rows_read(rows: Seq<Elem>) -> Seq<Option<ProxyView>> {
    Seq::new(rows.len(), |k: int| xici_row(rows[k].markup(), rows[k].path()))
}

/// The endpoints of rows of the second listing format, in order; rows that cannot
/// be read are skipped.
pub fn parse_xicidaili_proxy_info_from_tr_iter(rows: &Vec<Elem>) -> (r: Result<
    Vec<ProxyInfo>,
    PatternError,
>)
    ensures
        r is Ok <==> selector_ok("td"@),
        r matches Ok(v) ==> proxy_views(v@) == somes(rows_read(rows@)),
{
    let td_selector = match get_selector("td") {
        Ok(s) => s,
        Err(e) => return Err(e),
    };
    let ghost rs = rows_read(rows@);
    let mut out: Vec<ProxyInfo> = Vec::new();
    let mut i: usize = 0;
    assert(proxy_views(out@) =~= somes(rs.subrange(0, 0)));
    while i < rows.len()
        invariant
            i <= rows@.len(),
            rs == rows_read(rows@),
            td_selector.text() == "td"@,
            proxy_views(out@) == somes(rs.subrange(0, i as int)),
        decreases rows@.len() - i,
    {
        let ghost pre = rs.subrange(0, i + 1);
        assert(pre.drop_last() =~= rs.subrange(0, i as int));
        assert(pre.last() == xici_row(rows@[i as int].markup(), rows@[i as int].path()));
        let cells = texts_of_each(&rows[i], &td_selector);
        let ghost before = proxy_views(out@);
        match xicidaili_proxy(&cells) {
            Some(p) => {
                out.push(p);
                assert(proxy_views(out@) =~= before + seq![out@.last()@]);
            },
            None => {
                assert(before + Seq::<ProxyView>::empty() =~= before);
            },
        }
        i += 1;
    }
    assert(rs.subrange(0, rows@.len() as int) =~= rs);
    Ok(out)
}

/// The endpoints of a page of the second listing format: its odd rows, then its
/// even rows.
pub fn parse_xicidaili_proxy_info_from_page(markup: &str) -> (r: Result<Vec<ProxyInfo>, PatternError>)
    ensures
        r is Ok <==> xici_page(markup@) is Some,
        r matches Ok(v) ==> proxy_views(v@) == xici_page(markup@)->0,
{
    let document = Document::parse(markup);
    let odd_selector = match get_selector(r#"tr[class="odd"]"#) {
        Ok(s) => s,
        Err(e) => return Err(e),
    };
    let even_selector = match get_selector(r#"tr[class=""]"#) {
        Ok(s) => s,
        Err(e) => return Err(e),
    };
    let ghost m = markup@;
    let odd_rows = select_in_document(&document, &odd_selector);
    assert(rows_read(odd_rows@) =~= Seq::new(
        doc_matches(m, odd_pat()),
        |k: int| xici_row(m, seq![(odd_pat(), k as nat)]),
    ));
    let mut out = match parse_xicidaili_proxy_info_from_tr_iter(&odd_rows) {
        Ok(v) => v,
        Err(e) => return Err(e),
    };
    let even_rows = select_in_document(&document, &even_selector);
    assert(rows_read(even_rows@) =~= Seq::new(
        doc_matches(m, even_pat()),
        |k: int| xici_row(m, seq![(even_pat(), k as nat)]),
    ));
    let mut even = match parse_xicidaili_proxy_info_from_tr_iter(&even_rows) {
        Ok(v) => v,
        Err(e) => return Err(e),
    };
    let ghost a = proxy_views(out@);
    let ghost b = proxy_views(even@);
    out.append(&mut even);
    assert(proxy_views(out@) =~= a + b);
    Ok(out)
}

/// The endpoints of fetched pages of the second listing format, page by page;
/// pages that cannot be read are skipped.
pub fn parse_xicidaili_proxy_info(pages: &Vec<String>) -> (r: Vec<ProxyInfo>)
    ensures
        proxy_views(r@) == xici_all(str_views(pages@)),
{
    let ghost ps = str_views(pages@);
    let mut out: Vec<ProxyInfo> = Vec::new();
    let mut i: usize = 0;
    assert(proxy_views(out@) =~= xici_all(ps.subrange(0, 0)));
    while i < pages.len()
        invariant
            i <= pages@.len(),
            ps == str_views(pages@),
            proxy_views(out@) == xici_all(ps.subrange(0, i as int)),
        decreases pages@.len() - i,
    {
        let ghost pre = ps.subrange(0, i + 1);
        assert(pre.drop_last() =~= ps.subrange(0, i as int));
        assert(pre.last() == pages@[i as int]@);
        let ghost before = proxy_views(out@);
        match parse_xicidaili_proxy_info_from_page(pages[i].as_str()) {
            Ok(mut v) => {
                let ghost added = proxy_views(v@);
                out.append(&mut v);
                assert(proxy_views(out@) =~= before + added);
            },
            Err(_) => {
                assert(before + Seq::<ProxyView>::empty() =~= before);
            },
        }
        i += 1;
    }
    assert(ps.subrange(0, pages@.len() as int) =~= ps);
    out
}

/// The address of page `target` of the first listing format.
pub fn kuaidaili_page_url(target: u32) -> (r: String)
    ensures
        r@ == "https://www.kuaidaili.com/free/inha/"@ + dec_text(target as nat) + "/"@,
{
    let mut r = String::from_str("https://www.kuaidaili.com/free/inha/");
    r.append(string_of(&u64_text(target as u64)).as_str());
    r.append("/");
    r
}

/// The address of page `target` of the second listing format.
pub fn xicidaili_page_url(target: u32) -> (r: String)
    ensures
        r@ == "https://www.xicidaili.com/nn/"@ + dec_text(target as nat),
{
    let mut r = String::from_str("https://www.xicidaili.com/nn/");
    r.append(string_of(&u64_text(target as u64)).as_str());
    r
}

} // verus!
