use rosario::book::{parse_book_id, vec2comma_seperated_string, Book, Score};
use rosario::book_page::{
    clean_basic_info_text, clean_basic_info_type, clean_related_info_text, collect_basic_info,
    fill_basic_info_value, fill_star_value, parse_book_page, parse_score_star_percent_core,
};
use rosario::dom::{get_selector, Sibling};
use rosario::number::Decimal;

fn anchor(t: &str) -> Sibling {
    Sibling::Element { name: "a".to_string(), texts: vec![t.to_string()] }
}

fn text(t: &str) -> Sibling {
    Sibling::Text { text: t.to_string() }
}

fn br() -> Sibling {
    Sibling::Element { name: "br".to_string(), texts: vec![] }
}

fn span(t: &str) -> Sibling {
    Sibling::Element { name: "span".to_string(), texts: vec![t.to_string()] }
}

fn as_f64(d: Decimal) -> f64 {
    d.units as f64 / 10f64.powi(d.scale as i32)
}

fn strings(v: &[&str]) -> Vec<String> {
    v.iter().map(|s| s.to_string()).collect()
}

#[test]
fn book_id_is_last_nonempty_segment() {
    assert_eq!(parse_book_id("https://site/subject/1234567/"), "1234567");
    assert_eq!(parse_book_id(""), "");
    assert_eq!(parse_book_id("///"), "");
    assert_eq!(parse_book_id("https://book.douban.com/subject/42"), "42");
}

#[test]
fn label_cleaning_ignores_colons_quotes_and_spaces() {
    assert_eq!(clean_basic_info_type("作者:"), "作者");
    assert_eq!(clean_basic_info_type(" 作者 "), "作者");
    assert_eq!(clean_basic_info_type("\"出版社:\""), "出版社");
    let once = clean_basic_info_type(" 页数: ");
    assert_eq!(clean_basic_info_type(&once), once);
    assert_eq!(clean_basic_info_type(" \"x\" "), "x");
    assert_eq!(clean_basic_info_type(" \"作者"), "作者");
    assert_eq!(clean_basic_info_type(":\" 丛书 :\""), "丛书");
}

#[test]
fn value_cleaning_removes_markup_artifacts() {
    assert_eq!(clean_basic_info_text(" / "), "");
    assert_eq!(clean_basic_info_text("\\n  2020-1\u{a0}"), "2020-1");
    assert_eq!(clean_basic_info_text("\"上海译文出版社\""), "上海译文出版社");
    assert_eq!(clean_basic_info_text("a&;nbspb"), "ab");
    assert_eq!(clean_basic_info_text("12\u{a0}元"), "12元");
}

#[test]
fn basic_info_stops_at_line_break() {
    let sibs = vec![anchor("A"), text(" / "), anchor("B"), br(), anchor("C"), text("D")];
    let (a, t) = collect_basic_info(&sibs);
    assert_eq!(a, strings(&["A", "B"]));
    assert!(t.is_empty());
}

#[test]
fn basic_info_anchors_come_before_texts() {
    let sibs = vec![text(" 2019-5 "), anchor("X"), br()];
    let (a, t) = collect_basic_info(&sibs);
    let mut book = Book::new("u");
    fill_basic_info_value(&mut book, "出版年", t, a);
    assert_eq!(book.publication_year, "X");
}

#[test]
fn basic_info_field_table() {
    let mut book = Book::new("u");
    fill_basic_info_value(&mut book, "作者", strings(&["C D"]), strings(&["A B"]));
    fill_basic_info_value(&mut book, "作者", vec![], strings(&["E"]));
    fill_basic_info_value(&mut book, "ISBN", strings(&["9787"]), vec![]);
    fill_basic_info_value(&mut book, "统一书号", strings(&["10019"]), vec![]);
    fill_basic_info_value(&mut book, "定价", vec![], vec![]);
    fill_basic_info_value(&mut book, "未知", strings(&["x"]), vec![]);
    assert_eq!(book.author, strings(&["AB", "CD", "E"]));
    assert_eq!(book.isbn, "9787");
    assert_eq!(book.unified_book_number, "10019");
    assert_eq!(book.price, "");
}

#[test]
fn star_walk_reads_pairs() {
    let sibs = vec![span("5星"), text("\n"), span("83.2%"), span("4星"), span("12.1%")];
    let mut score = Score::new();
    parse_score_star_percent_core(&sibs, &mut score);
    assert!((as_f64(score.five_star_pct) - 83.2).abs() < 1e-9);
    assert!((as_f64(score.four_star_pct) - 12.1).abs() < 1e-9);
    assert_eq!(score.three_star_pct, Decimal::zero());
}

#[test]
fn star_walk_drops_only_unknown_pair() {
    let sibs = vec![
        span("5星"),
        span("83.2%"),
        span("6星"),
        span("1.0%"),
        span("4星"),
        span("12.1%"),
    ];
    let mut score = Score::new();
    parse_score_star_percent_core(&sibs, &mut score);
    assert_eq!(score.five_star_pct, Decimal { units: 832, scale: 1 });
    assert_eq!(score.four_star_pct, Decimal { units: 121, scale: 1 });
}

#[test]
fn star_walk_drops_unreadable_value() {
    let sibs = vec![span("5星"), span("n/a"), span("3星"), span("2.5%")];
    let mut score = Score::new();
    parse_score_star_percent_core(&sibs, &mut score);
    assert_eq!(score.five_star_pct, Decimal::zero());
    assert_eq!(score.three_star_pct, Decimal { units: 25, scale: 1 });
}

#[test]
fn fill_star_value_rejects_unknown_label() {
    let mut score = Score::new();
    assert!(fill_star_value(&mut score, Decimal { units: 5, scale: 0 }, "1星"));
    assert!(!fill_star_value(&mut score, Decimal { units: 7, scale: 0 }, "6星"));
    assert_eq!(score.one_star_pct, Decimal { units: 5, scale: 0 });
}

#[test]
fn directory_cleanup() {
    let pieces = strings(&["  (第一章) ", "收起", "· 第二章 ·", "   ", "\n第三章\t"]);
    assert_eq!(clean_related_info_text(&pieces, true), "第一章\n第二章\n第三章");
    assert_eq!(clean_related_info_text(&pieces, false), "(第一章)\n收起\n· 第二章 ·\n第三章");
}

#[test]
fn comma_separated_names() {
    assert_eq!(vec2comma_seperated_string(&strings(&["a", "b", "c"])), "a, b, c");
    assert_eq!(vec2comma_seperated_string(&strings(&["a"])), "a");
    assert_eq!(vec2comma_seperated_string(&[]), "");
}

#[test]
fn malformed_pattern_is_reported() {
    assert!(get_selector("div[").is_err());
    assert!(get_selector("div").is_ok());
}

const BOOK_PAGE: &str = r#"<html><body>
<h1><span> 活着 </span></h1>
<div id="info">
<span class="pl"> 作者</span>: <a href="/a">余 华</a><br>
<span class="pl">出版社:</span> 作家出版社<br>
<span class="pl">出版年:</span> 2012-8<br>
<span class="pl">ISBN:</span> 9787506365437<br>
</div>
<div class="rating_wrap clearbox">
<strong class="ll rating_num "> 9.4 </strong>
<a class="rating_people"><span>717133</span>人评价</a>
<div class="rating_self clearfix">x</div>
<span class="stars5 starstop">5星</span><span class="rating_per">77.0%</span>
<span class="stars4 starstop">4星</span><span class="rating_per">19.1%</span>
</div>
<div class="related_info">
<div id="link-report"><div class="intro"><p>内容一</p><p>内容二</p></div></div>
<div class="intro"><p>作者简介</p></div>
<div id="dir_4913064_full">第一章<br>(第二章)<br>收起</div>
</div>
</body></html>"#;

#[test]
fn book_page_end_to_end() {
    let book = parse_book_page(BOOK_PAGE, "https://book.douban.com/subject/4913064/").unwrap();
    assert_eq!(book.location, "https://book.douban.com/subject/4913064/");
    assert_eq!(book.title, "活着");
    assert_eq!(book.author, strings(&["余华"]));
    assert_eq!(book.press, "作家出版社");
    assert_eq!(book.publication_year, "2012-8");
    assert_eq!(book.isbn, "9787506365437");
    assert_eq!(book.score.score, Decimal { units: 94, scale: 1 });
    assert_eq!(book.score.score_num, 717133);
    assert_eq!(book.score.five_star_pct, Decimal { units: 770, scale: 1 });
    assert_eq!(book.score.four_star_pct, Decimal { units: 191, scale: 1 });
    assert_eq!(book.content_intro, "内容一\n内容二");
    assert_eq!(book.author_intro, "作者简介");
    assert_eq!(book.directory, "第一章\n第二章");
}

#[test]
fn book_page_without_report_block() {
    let page = r#"<div class="related_info"><div class="intro">只有一段</div><div class="intro">第二段</div></div>"#;
    let book = parse_book_page(page, "https://x/subject/1/").unwrap();
    assert_eq!(book.content_intro, "只有一段");
    assert_eq!(book.author_intro, "");
    assert_eq!(book.title, "");
    assert_eq!(book.score.score, Decimal::zero());
}
