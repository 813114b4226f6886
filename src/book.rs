//! The bibliographic record and its rating summary.

use vstd::prelude::*;
use crate::number::{decimal_text, i32_text, int_text, Decimal};
use crate::text::{
    chars_of, join, join_strings, last_nonempty, last_nonempty_of, split_chars, split_on,
    str_views, string_of,
};

verus! {

/// Which star bucket of the rating distribution.
#[derive(Clone, Copy, PartialEq, Eq, Debug, Structural)]
pub enum Star {
    Five,
    Four,
    Three,
    Two,
    One,
}

/// The aggregate rating of a book.
#[derive(Clone, Copy, PartialEq, Eq, Debug, Structural)]
pub struct Score {
    pub score: Decimal,
    pub score_num: i32,
    pub five_star_pct: Decimal,
    pub four_star_pct: Decimal,
    pub three_star_pct: Decimal,
    pub two_star_pct: Decimal,
    pub one_star_pct: Decimal,
}

/// `s` with the share of `star` set to `v`.
pub open spec fn with_star(s: Score, star: Star, v: Decimal) -> Score {
    match star {
        Star::Five => Score { five_star_pct: v, ..s },
        Star::Four => Score { four_star_pct: v, ..s },
        Star::Three => Score { three_star_pct: v, ..s },
        Star::Two => Score { two_star_pct: v, ..s },
        Star::One => Score { one_star_pct: v, ..s },
    }
}

impl Score {
    /// A score with every number zero.
    pub fn new() -> (r: Score)
        ensures
            r.score.is(0, 0),
            r.score_num == 0,
            r.five_star_pct.is(0, 0),
            r.four_star_pct.is(0, 0),
            r.three_star_pct.is(0, 0),
            r.two_star_pct.is(0, 0),
            r.one_star_pct.is(0, 0),
    {
        Score {
            score: Decimal::zero(),
            score_num: 0,
            five_star_pct: Decimal::zero(),
            four_star_pct: Decimal::zero(),
            three_star_pct: Decimal::zero(),
            two_star_pct: Decimal::zero(),
            one_star_pct: Decimal::zero(),
        }
    }

    /// Sets the share of one star bucket.
    pub fn set_star(&mut self, star: Star, v: Decimal)
        ensures
            *final(self) == with_star(*old(self), star, v),
    {
        match star {
            Star::Five => self.five_star_pct = v,
            Star::Four => self.four_star_pct = v,
            Star::Three => self.three_star_pct = v,
            Star::Two => self.two_star_pct = v,
            Star::One => self.one_star_pct = v,
        }
    }
}

/// A bibliographic record.
pub struct Book {
    pub title: String,
    pub location: String,
    pub origin_title: String,
    pub subtitle: String,
    pub author: Vec<String>,
    pub translator: Vec<String>,
    pub press: String,
    pub producer: String,
    pub publication_year: String,
    pub page_num: String,
    pub price: String,
    pub binding: String,
    pub series: String,
    pub isbn: String,
    pub unified_book_number: String,
    pub score: Score,
    pub content_intro: String,
    pub author_intro: String,
    pub directory: String,
}

/// The record as mathematical values.
pub struct BookView {
    pub title: Seq<char>,
    pub location: Seq<char>,
    pub origin_title: Seq<char>,
    pub subtitle: Seq<char>,
    pub author: Seq<Seq<char>>,
    pub translator: Seq<Seq<char>>,
    pub press: Seq<char>,
    pub producer: Seq<char>,
    pub publication_year: Seq<char>,
    pub page_num: Seq<char>,
    pub price: Seq<char>,
    pub binding: Seq<char>,
    pub series: Seq<char>,
    pub isbn: Seq<char>,
    pub unified_book_number: Seq<char>,
    pub score: Score,
    pub content_intro: Seq<char>,
    pub author_intro: Seq<char>,
    pub directory: Seq<char>,
}

impl View for Book {
    type V = BookView;

    open spec fn view(&self) -> BookView {
        BookView {
            title: self.title@,
            location: self.location@,
            origin_title: self.origin_title@,
            subtitle: self.subtitle@,
            author: str_views(self.author@),
            translator: str_views(self.translator@),
            press: self.press@,
            producer: self.producer@,
            publication_year: self.publication_year@,
            page_num: self.page_num@,
            price: self.price@,
            binding: self.binding@,
            series: self.series@,
            isbn: self.isbn@,
            unified_book_number: self.unified_book_number@,
            score: self.score,
            content_intro: self.content_intro@,
            author_intro: self.author_intro@,
            directory: self.directory@,
        }
    }
}

/// The empty record of the given location.
pub open spec fn empty_book(location: Seq<char>) -> BookView {
    BookView {
        title: Seq::empty(),
        location,
        origin_title: Seq::empty(),
        subtitle: Seq::empty(),
        author: Seq::empty(),
        translator: Seq::empty(),
        press: Seq::empty(),
        producer: Seq::empty(),
        publication_year: Seq::empty(),
        page_num: Seq::empty(),
        price: Seq::empty(),
        binding: Seq::empty(),
        series: Seq::empty(),
        isbn: Seq::empty(),
        unified_book_number: Seq::empty(),
        score: Score {
            score: Decimal { units: 0, scale: 0 },
            score_num: 0,
            five_star_pct: Decimal { units: 0, scale: 0 },
            four_star_pct: Decimal { units: 0, scale: 0 },
            three_star_pct: Decimal { units: 0, scale: 0 },
            two_star_pct: Decimal { units: 0, scale: 0 },
            one_star_pct: Decimal { units: 0, scale: 0 },
        },
        content_intro: Seq::empty(),
        author_intro: Seq::empty(),
        directory: Seq::empty(),
    }
}

impl Book {
    /// An empty record for the page at `location`.
    pub fn new(location: &str) -> (r: Book)
        ensures
            r@ == empty_book(location@),
    {
        let r = Book {
            title: String::new(),
            location: location.to_owned(),
            origin_title: String::new(),
            subtitle: String::new(),
            author: Vec::new(),
            translator: Vec::new(),
            press: String::new(),
            producer: String::new(),
            publication_year: String::new(),
            page_num: String::new(),
            price: String::new(),
            binding: String::new(),
            series: String::new(),
            isbn: String::new(),
            unified_book_number: String::new(),
            score: Score::new(),
            content_intro: String::new(),
            author_intro: String::new(),
            directory: String::new(),
        };
        assert(r.author@.len() == 0 && r.translator@.len() == 0);
        assert(str_views(r.author@) =~= Seq::<Seq<char>>::empty());
        assert(str_views(r.translator@) =~= Seq::<Seq<char>>::empty());
        r
    }
}

/// `v` joined with `", "`.
pub fn vec2comma_seperated_string(v: &[String]) -> (r: String)
    ensures
        r@ == join(str_views(v@), ", "@),
{
    join_strings(v, ", ")
}


/// A book's identifier: the last non-empty `/`-separated segment of its URL.
pub open spec fn book_id(url: Seq<char>) -> Seq<char> {
    last_nonempty(split_on(url, '/'))
}

/// The identifier of the book at `book_page_url`; empty where the URL has no
/// non-empty segment.
pub fn parse_book_id(book_page_url: &str) -> (r: String)
    ensures
        r@ == book_id(book_page_url@),
{
    let parts = split_chars(&chars_of(book_page_url), '/');
    string_of(&last_nonempty_of(&parts))
}


/// The text form of a rating summary.
pub open spec fn score_text(s: Score) -> Seq<char> {
    "评分:\n豆瓣评分: "@ + decimal_text(s.score) + "\n评价人数: "@ + int_text(s.score_num as int)
        + "\n5星: "@ + decimal_text(s.five_star_pct) + "\n4星: "@ + decimal_text(s.four_star_pct)
        + "\n3星: "@ + decimal_text(s.three_star_pct) + "\n2星: "@ + decimal_text(
        s.two_star_pct,
    ) + "\n1星: "@ + decimal_text(s.one_star_pct)
}

/// The text form of a record, one labelled field per line, the rating summary,
/// the intros and the directory.
pub open spec fn book_text(b: BookView) -> Seq<char> {
    "书名: "@ + b.title + "\nURL: "@ + b.location + "\n原作名: "@ + b.origin_title + "\n副标题: "@
        + b.subtitle + "\n作者: "@ + join(b.author, ", "@) + "\n译者: "@ + join(b.translator, ", "@)
        + "\n出版社: "@ + b.press + "\n出品方: "@ + b.producer + "\n出版年: "@ + b.publication_year
        + "\n页数: "@ + b.page_num + "\n定价: "@ + b.price + "\n装帧: "@ + b.binding + "\n丛书: "@
        + b.series + "\nisbn: "@ + b.isbn + "\n统一书号: "@ + b.unified_book_number + "\n\n"@
        + score_text(b.score) + "\n\n内容简介:\n"@ + b.content_intro + "\n\n作者简介:\n"@
        + b.author_intro + "\n\n目录:\n"@ + b.directory
}

impl Score {
    /// The text form of the summary.
    pub fn to_text(&self) -> (r: String)
        ensures
            r@ == score_text(*self),
    {
        let mut r = String::from_str("评分:\n豆瓣评分: ");
        r.append(self.score.to_text().as_str());
        r.append("\n评价人数: ");
        r.append(i32_text(self.score_num).as_str());
        r.append("\n5星: ");
        r.append(self.five_star_pct.to_text().as_str());
        r.append("\n4星: ");
        r.append(self.four_star_pct.to_text().as_str());
        r.append("\n3星: ");
        r.append(self.three_star_pct.to_text().as_str());
        r.append("\n2星: ");
        r.append(self.two_star_pct.to_text().as_str());
        r.append("\n1星: ");
        r.append(self.one_star_pct.to_text().as_str());
        r
    }
}

impl Book {
    /// The text form of the record.
    pub fn to_text(&self) -> (r: String)
        ensures
            r@ == book_text(self@),
    {
        let mut r = String::from_str("书名: ");
        r.append(self.title.as_str());
        r.append("\nURL: ");
        r.append(self.location.as_str());
        r.append("\n原作名: ");
        r.append(self.origin_title.as_str());
        r.append("\n副标题: ");
        r.append(self.subtitle.as_str());
        r.append("\n作者: ");
        r.append(vec2comma_seperated_string(self.author.as_slice()).as_str());
        r.append("\n译者: ");
        r.append(vec2comma_seperated_string(self.translator.as_slice()).as_str());
        r.append("\n出版社: ");
        r.append(self.press.as_str());
        r.append("\n出品方: ");
        r.append(self.producer.as_str());
        r.append("\n出版年: ");
        r.append(self.publication_year.as_str());
        r.append("\n页数: ");
        r.append(self.page_num.as_str());
        r.append("\n定价: ");
        r.append(self.price.as_str());
        r.append("\n装帧: ");
        r.append(self.binding.as_str());
        r.append("\n丛书: ");
        r.append(self.series.as_str());
        r.append("\nisbn: ");
        r.append(self.isbn.as_str());
        r.append("\n统一书号: ");
        r.append(self.unified_book_number.as_str());
        r.append("\n\n");
        r.append(self.score.to_text().as_str());
        r.append("\n\n内容简介:\n");
        r.append(self.content_intro.as_str());
        r.append("\n\n作者简介:\n");
        r.append(self.author_intro.as_str());
        r.append("\n\n目录:\n");
        r.append(self.directory.as_str());
        r
    }
}

} // verus!
