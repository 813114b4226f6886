use rosario::book::{Book, Score};
use rosario::dom::{Document, Sibling};
use rosario::fetch::{get_default_headers, proxy_url, PacingClock, MAX_SPACING_MS, MIN_SPACING_MS};
use rosario::listing::{
    book_paths, get_max_tag_page_count, page_count_of, last_page_number, parse_children_a_texts,
    parse_root_page, parse_tag_page,
};
use rosario::number::{i32_text, parse_decimal, parse_i32, Decimal};
use rosario::proxy::{
    get_and_store_valid_proxies, is_valid_proxy_response, load_proxies, store_proxies,
    validate_proxies, EmptyPool, ProxyInfo, ProxyPool,
};
use rosario::proxy_pages::{
    kuaidaili_proxy, parse_kuaidaili_proxy_info, parse_kuaidaili_proxy_info_from_page,
    parse_kuaidaili_proxy_info_from_tr, parse_kuaidaili_proxy_info_from_tr_inner, ProxyPageError,
    parse_xicidaili_proxy_info, parse_xicidaili_proxy_info_from_td, xicidaili_proxy,
};
use rosario::store::{book_id_of_file_name, init, record_file_name, StoredBookIds};

fn strings(v: &[&str]) -> Vec<String> {
    v.iter().map(|s| s.to_string()).collect()
}

fn chars(s: &str) -> Vec<char> {
    s.chars().collect()
}

fn proxy(ip: &str, port: &str) -> ProxyInfo {
    ProxyInfo::from_address(ip.to_string(), port.to_string())
}

#[test]
fn root_page_collects_category_paths() {
    let page = r#"<table class="tagCol"><tr><td><a href="/tag/小说">小说</a></td>
        <td><a href="/tag/历史">历史</a></td></tr></table>
        <a href="/elsewhere">x</a>
        <table class="tagCol"><tr><td><a href="/tag/小说">小说</a><a>none</a></td></tr></table>"#;
    assert_eq!(parse_root_page(page).unwrap(), strings(&["/tag/小说", "/tag/历史", "/tag/小说"]));
}

#[test]
fn page_count_is_last_parsed_anchor() {
    let page = r#"<div class="paginator"><span class="prev">前页</span>
        <a href="?start=20">2</a><a href="?start=40"> 3 </a><span>...</span>
        <a href="?start=980">50</a><a href="?start=20">后页&gt;</a></div>"#;
    assert_eq!(get_max_tag_page_count(page).unwrap(), 50);
    assert_eq!(get_max_tag_page_count("<div>no paginator</div>").unwrap(), 0);
    assert_eq!(last_page_number(&strings(&["7", "3", "x"])), 3);
    assert_eq!(last_page_number(&strings(&["x"])), 0);
}

#[test]
fn paginator_children_are_anchor_texts() {
    let children = vec![
        Sibling::Element { name: "a".to_string(), texts: strings(&[" 1 ", "x"]) },
        Sibling::Text { text: "2".to_string() },
        Sibling::Element { name: "span".to_string(), texts: strings(&["3"]) },
        Sibling::Element { name: "a".to_string(), texts: vec![] },
        Sibling::Other,
    ];
    assert_eq!(parse_children_a_texts(&children), strings(&["1"]));
}

#[test]
fn tag_page_lists_book_paths() {
    let page = r#"<ul><li class="subject-item"><h2><a href="https://b/subject/1/" title="甲">甲</a></h2></li>
        <li class="subject-item"><h2><a title="乙">乙</a></h2></li>
        <li class="subject-item"><div>no heading</div></li>
        <li class="subject-item"><h2><a href="https://b/subject/3/">丙</a><a href="/other">x</a></h2></li></ul>"#;
    assert_eq!(parse_tag_page(page).unwrap(), strings(&["https://b/subject/1/", "https://b/subject/3/"]));
    let hrefs = vec![Some("a".to_string()), None, Some(String::new()), Some("b".to_string())];
    assert_eq!(book_paths(hrefs), strings(&["a", "b"]));
}

#[test]
fn numbers_are_read_exactly() {
    assert_eq!(parse_decimal(&chars("83.2")), Some(Decimal { units: 832, scale: 1 }));
    assert_eq!(parse_decimal(&chars("9")), Some(Decimal { units: 9, scale: 0 }));
    assert_eq!(parse_decimal(&chars(".5")), Some(Decimal { units: 5, scale: 1 }));
    assert_eq!(parse_decimal(&chars("1.2.3")), None);
    assert_eq!(parse_decimal(&chars(".")), None);
    assert_eq!(parse_decimal(&chars("4a")), None);
    assert_eq!(parse_decimal(&chars("99999999999999999999")), None);
    assert_eq!(parse_i32(&chars("-2147483648")), Some(i32::MIN));
    assert_eq!(parse_i32(&chars("+42")), Some(42));
    assert_eq!(parse_i32(&chars("2147483648")), None);
    assert_eq!(parse_i32(&chars("-")), None);
    assert_eq!(parse_i32(&chars("")), None);
    assert_eq!(i32_text(-305), "-305");
    assert_eq!(Decimal { units: 5, scale: 3 }.to_text(), "0.005");
    assert_eq!(Decimal { units: 832, scale: 1 }.to_text(), "83.2");
    assert_eq!(Decimal::zero().to_text(), "0");
}

#[test]
fn record_text_form() {
    let mut book = Book::new("https://b/subject/7/");
    book.title = "书".to_string();
    book.author = strings(&["甲", "乙"]);
    let mut score = Score::new();
    score.score = Decimal { units: 81, scale: 1 };
    score.score_num = 12;
    book.score = score;
    let text = book.to_text();
    assert!(text.starts_with("书名: 书\nURL: https://b/subject/7/\n原作名: \n副标题: \n作者: 甲, 乙\n译者: \n"));
    assert!(text.contains("\n\n评分:\n豆瓣评分: 8.1\n评价人数: 12\n5星: 0\n"));
    assert!(text.ends_with("1星: 0\n\n内容简介:\n\n\n作者简介:\n\n\n目录:\n"));
}

#[test]
fn proxy_list_round_trip() {
    let content = "1.2.3.4 8080\nbad line here\n5.6.7.8 3128\r\n\n9.9.9.9\n";
    let ps = load_proxies(content);
    assert_eq!(ps, vec![proxy("1.2.3.4", "8080"), proxy("5.6.7.8", "3128")]);
    assert_eq!(store_proxies(&ps), "1.2.3.4 8080\n5.6.7.8 3128\n");
    assert_eq!(load_proxies(&store_proxies(&ps)), ps);
}

#[test]
fn proxy_validation_needs_200_and_no_block_marker() {
    assert!(is_valid_proxy_response(200, "<html>books</html>"));
    assert!(!is_valid_proxy_response(200, "redirect to https://sec.douban.com/b?r=1"));
    assert!(!is_valid_proxy_response(403, "<html>books</html>"));
    assert!(!is_valid_proxy_response(302, ""));
    let cands = vec![proxy("a", "1"), proxy("b", "2"), proxy("c", "3"), proxy("d", "4")];
    let outcomes = vec![
        Some((200, "ok".to_string())),
        None,
        Some((200, "sec.douban.com".to_string())),
        Some((200, "fine".to_string())),
    ];
    assert_eq!(validate_proxies(&cands, &outcomes), vec![proxy("a", "1"), proxy("d", "4")]);
    assert_eq!(get_and_store_valid_proxies(&cands, &outcomes), "a 1\nd 4\n");
}

#[test]
fn pool_choice() {
    let empty = ProxyPool::new(vec![]);
    assert_eq!(empty.get_proxy_to_use(), Err(EmptyPool));
    let pool = ProxyPool::init("1.1.1.1 80\n2.2.2.2 81\n");
    assert_eq!(pool.len(), 2);
    let mut seen_first = false;
    let mut seen_second = false;
    for _ in 0..200 {
        let p = pool.get_proxy_to_use().unwrap();
        assert!(p == proxy("1.1.1.1", "80") || p == proxy("2.2.2.2", "81"));
        seen_first |= p.ip == "1.1.1.1";
        seen_second |= p.ip == "2.2.2.2";
    }
    assert!(seen_first && seen_second);
    assert_eq!(proxy_url(&proxy("1.1.1.1", "80")), "http://1.1.1.1:80");
}

#[test]
fn pacing_keeps_minimum_spacing() {
    let mut clock = PacingClock::new(0);
    assert_eq!(clock.wait_before_fetch(0, 3000), 3000);
    assert_eq!(clock.wait_before_fetch(10_000, 3000), 0);
    clock.set_last_fetch_time(3000);
    assert_eq!(clock.wait_before_fetch(3500, 2000), 1500);
    clock.set_last_fetch_time(1000);
    assert_eq!(clock.last_fetch_time(), 3000);
    for now in [3000u64, 3001, 4999, 5000, 9000] {
        for _ in 0..50 {
            let wait = clock.sleep_if_fetch_too_fast(now);
            assert!(now + wait >= 3000 + MIN_SPACING_MS);
            assert!(now + wait < 3000 + MAX_SPACING_MS || wait == 0);
        }
    }
}

#[test]
fn request_profile() {
    let h = get_default_headers();
    assert_eq!(h.len(), 6);
    assert_eq!(h[1], ("host".to_string(), "book.douban.com".to_string()));
    assert_eq!(h[5], ("accept-language".to_string(), "zh-CN,zh;q=0.9".to_string()));
}

#[test]
fn stored_ids_put_then_contains() {
    let mut ids = StoredBookIds::new();
    assert!(!ids.is_already_store("https://book.douban.com/subject/1234567/"));
    assert!(ids.add_stored_book_id("1234567"));
    assert!(ids.contains("1234567"));
    assert!(ids.is_already_store("https://book.douban.com/subject/1234567/"));
    assert!(!ids.add_stored_book_id("1234567"));
    assert!(ids.contains("1234567"));
    assert!(!ids.contains("123456"));
}

#[test]
fn stored_ids_from_file_names() {
    assert_eq!(book_id_of_file_name("活着_4913064"), Some("4913064".to_string()));
    assert_eq!(book_id_of_file_name("a_b_ 42 _  "), Some("42".to_string()));
    assert_eq!(book_id_of_file_name("_ _"), None);
    let ids = init(&strings(&["活着_4913064", "___", "x_1"]));
    assert!(ids.contains("4913064") && ids.contains("1"));
    assert!(!ids.contains("x"));
    assert_eq!(record_file_name("活着", "https://book.douban.com/subject/4913064/"), "活着_4913064");
}

#[test]
fn first_listing_format() {
    let page = r#"<table><tbody>
        <tr><td data-title="IP">1.1.1.1</td><td data-title="PORT">80</td><td data-title="类型">HTTP</td>
            <td data-title="最后验证时间">2020</td><td data-title="匿名度">高匿</td><td data-title="位置"> </td></tr>
        <tr><td data-title="IP">2.2.2.2</td></tr>
        </tbody></table>"#;
    let ps = parse_kuaidaili_proxy_info(&vec![page.to_string(), "<p>no table</p>".to_string()]);
    assert_eq!(ps.len(), 1);
    assert_eq!(ps[0].ip, "1.1.1.1");
    assert_eq!(ps[0].scheme, "HTTP");
    assert_eq!(ps[0].position, "");
    assert_eq!(parse_kuaidaili_proxy_info_from_tr_inner(&strings(&["  ", " x ", "y"])), " x ");
    let cells = vec![Some(strings(&["a"])), None, None, None, None, None];
    assert_eq!(kuaidaili_proxy(&cells), None);
}

#[test]
fn second_listing_format() {
    let page = r#"<table>
        <tr class="odd"><td>cn</td><td> 3.3.3.3 </td><td>8888</td></tr>
        <tr class=""><td>cn</td><td>4.4.4.4</td><td>  </td></tr>
        <tr class=""><td>cn</td><td>5.5.5.5</td><td>9999</td></tr>
        </table>"#;
    let ps = parse_xicidaili_proxy_info(&vec![page.to_string()]);
    assert_eq!(ps, vec![proxy("3.3.3.3", "8888"), proxy("5.5.5.5", "9999")]);
    assert_eq!(parse_xicidaili_proxy_info_from_td(&strings(&[" ", " v "])), Some("v".to_string()));
    assert_eq!(parse_xicidaili_proxy_info_from_td(&strings(&[" "])), None);
    assert_eq!(xicidaili_proxy(&vec![strings(&["cn"]), strings(&["1"])]), None);
}

#[test]
fn page_count_without_paginator_is_zero() {
    assert_eq!(page_count_of(&None), 0);
    let children = vec![
        Sibling::Element { name: "a".to_string(), texts: strings(&["4"]) },
        Sibling::Element { name: "a".to_string(), texts: strings(&["2"]) },
        Sibling::Element { name: "a".to_string(), texts: strings(&["后页"]) },
    ];
    assert_eq!(page_count_of(&Some(children)), 2);
    assert_eq!(page_count_of(&Some(vec![])), 0);
}

#[test]
fn listing_page_errors() {
    assert_eq!(parse_kuaidaili_proxy_info_from_page("<p>none</p>"), Err(ProxyPageError::NoTable));
    let page = r#"<table><tbody><tr><td data-title="IP">1.1.1.1</td></tr></tbody></table>"#;
    assert_eq!(parse_kuaidaili_proxy_info_from_page(page), Ok(vec![]));
    let tr_only = r#"<table><tbody><tr><td data-title="PORT">80</td></tr></tbody></table>"#;
    let cells = vec![None, Some(strings(&["80"])), None, None, None, None];
    assert_eq!(kuaidaili_proxy(&cells), None);
    assert_eq!(parse_kuaidaili_proxy_info(&vec![tr_only.to_string()]), vec![]);
    let doc = Document::parse(tr_only);
    let rows = doc.select_all("tr").unwrap();
    assert_eq!(rows.len(), 1);
    assert_eq!(parse_kuaidaili_proxy_info_from_tr(&rows[0]), Err(ProxyPageError::MissingCell));
    assert!(doc.select_all("tr[").is_err());
}
