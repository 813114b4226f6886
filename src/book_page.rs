//! Extraction of a book record from its page.

use vstd::prelude::*;
use crate::book::{with_star, Book, BookView, Score, Star};
use crate::number::{decimal_of, int_of, parse_decimal, parse_i32, Decimal};
use crate::book::{book_id, empty_book, parse_book_id};
use crate::dom::{
    attr_of, doc_matches, elem_attr, elem_matches, elem_next_siblings, elem_texts, get_selector,
    next_siblings_of, select_in, select_in_document, selector_ok, sib_views, texts_of, Document,
    Elem, NodeView, Pattern, PatternError, Sibling,
};
use crate::text::{
    all_in, is_white, lemma_remove_char_concat, lemma_strip_surrounded, is_text, join, join_strings, same_chars, str_views, lemma_remove_char, lemma_strip_noop, lemma_strip_within, chars_of, class, remove_all, remove_all_chars, string_of, strip, strip_chars, trim_chars,
    trimmed,
};

verus! {

/// The characters stripped from both ends of a label once its colons are gone.
pub open spec fn label_marks() -> spec_fn(char) -> bool {
    class(seq!['"'], true)
}

/// A field key cleaned from a label: every colon removed, then quotes and white
/// space stripped at both ends.
pub open spec fn clean_type(s: Seq<char>) -> Seq<char> {
    strip(remove_all(s, seq![':']), label_marks())
}

/// A value cleaned of markup artifacts: the escaped spaces, slashes, newlines and
/// non-breaking spaces removed, then quotes and colons stripped at both ends, then
/// white space trimmed.
pub open spec fn clean_text(s: Seq<char>) -> Seq<char> {
    let a = remove_all(s, seq!['&', ';', 'n', 'b', 's', 'p']);
    let b = remove_all(a, seq!['/']);
    let c = remove_all(b, seq!['\\', 'n']);
    let d = remove_all(c, seq!['\\', 'u', '{', 'a', '0', '}']);
    let e = remove_all(d, seq!['\n']);
    let f = remove_all(e, seq!['\u{a0}']);
    trimmed(strip(f, class(seq!['"', ':'], false)))
}

/// The field key of a label.
pub fn clean_basic_info_type(info_type: &str) -> (r: String)
    ensures
        r@ == clean_type(info_type@),
{
    let s = chars_of(info_type);
    let colon = vec![':'];
    assert(colon@ == seq![':']);
    let a = remove_all_chars(&s, &colon);
    let quote = vec!['"'];
    assert(quote@ == seq!['"']);
    let b = strip_chars(&a, &quote, true);
    string_of(&b)
}

/// A field value cleaned of markup artifacts.
pub fn clean_basic_info_text(info_text: &str) -> (r: String)
    ensures
        r@ == clean_text(info_text@),
{
    let s = chars_of(info_text);
    let nbsp_entity = vec!['&', ';', 'n', 'b', 's', 'p'];
    let slash = vec!['/'];
    let escaped_newline = vec!['\\', 'n'];
    let escaped_nbsp = vec!['\\', 'u', '{', 'a', '0', '}'];
    let newline = vec!['\n'];
    let nbsp = vec!['\u{a0}'];
    assert(nbsp@ == seq!['\u{a0}']);
    let marks = vec!['"', ':'];
    assert(nbsp_entity@ == seq!['&', ';', 'n', 'b', 's', 'p']);
    assert(slash@ == seq!['/']);
    assert(escaped_newline@ == seq!['\\', 'n']);
    assert(escaped_nbsp@ == seq!['\\', 'u', '{', 'a', '0', '}']);
    assert(newline@ == seq!['\n']);
    assert(marks@ == seq!['"', ':']);
    let a = remove_all_chars(&s, &nbsp_entity);
    let b = remove_all_chars(&a, &slash);
    let c = remove_all_chars(&b, &escaped_newline);
    let d = remove_all_chars(&c, &escaped_nbsp);
    let e = remove_all_chars(&d, &newline);
    let e2 = remove_all_chars(&e, &nbsp);
    let f = strip_chars(&e2, &marks, false);
    let g = trim_chars(&f);
    string_of(&g)
}


/// Cleaning a label a second time changes nothing.
pub proof fn lemma_clean_type_idempotent(s: Seq<char>)
    ensures
        clean_type(clean_type(s)) == clean_type(s),
{
    let a = remove_all(s, seq![':']);
    let y = clean_type(s);
    lemma_remove_char(a, ':');
    lemma_remove_char(s, ':');
    lemma_strip_within(a, label_marks());
    assert(!y.contains(':'));
    lemma_remove_char(y, ':');
    lemma_strip_noop(y, label_marks());
}

/// Runs of white space, quotes and colons around a label do not change its key.
pub proof fn lemma_clean_type_ignores_surroundings(pre: Seq<char>, s: Seq<char>, post: Seq<char>)
    requires
        forall|i: int| 0 <= i < pre.len() ==> (is_white(#[trigger] pre[i]) || pre[i] == '"' || pre[i] == ':'),
        forall|i: int| 0 <= i < post.len() ==> (is_white(#[trigger] post[i]) || post[i] == '"' || post[i] == ':'),
    ensures
        clean_type(pre + s + post) == clean_type(s),
{
    let c = seq![':'];
    lemma_remove_char_concat(pre + s, post, ':');
    lemma_remove_char_concat(pre, s, ':');
    let rp = remove_all(pre, c);
    let rq = remove_all(post, c);
    lemma_remove_char(pre, ':');
    lemma_remove_char(post, ':');
    assert(all_in(rp, label_marks())) by {
        assert forall|i: int| 0 <= i < rp.len() implies label_marks()(#[trigger] rp[i]) by {
            assert(rp.contains(rp[i]));
            assert(pre.contains(rp[i]));
            let k = choose|k: int| 0 <= k < pre.len() && pre[k] == rp[i];
            assert(is_white(pre[k]) || pre[k] == '"' || pre[k] == ':');
            assert(seq!['"'][0] == '"');
        }
    }
    assert(all_in(rq, label_marks())) by {
        assert forall|i: int| 0 <= i < rq.len() implies label_marks()(#[trigger] rq[i]) by {
            assert(rq.contains(rq[i]));
            assert(post.contains(rq[i]));
            let k = choose|k: int| 0 <= k < post.len() && post[k] == rq[i];
            assert(is_white(post[k]) || post[k] == '"' || post[k] == ':');
            assert(seq!['"'][0] == '"');
        }
    }
    lemma_strip_surrounded(rp, remove_all(s, c), rq, label_marks());
}

/// Whether the node is the line break that ends a field's value.
pub open spec fn ends_field(n: NodeView) -> bool {
    n matches NodeView::Element { name, .. } && name == "br"@
}

/// What an anchor contributes to a field's value.
pub open spec fn anchor_value(n: NodeView) -> Option<Seq<char>> {
    match n {
        NodeView::Element { name, texts } => {
            if name == "a"@ && texts.len() > 0 && clean_text(texts[0]).len() > 0 {
                Some(clean_text(texts[0]))
            } else {
                None
            }
        },
        _ => None,
    }
}

/// What a text node contributes to a field's value.
pub open spec fn text_value(n: NodeView) -> Option<Seq<char>> {
    match n {
        NodeView::Text { text } => if clean_text(text).len() > 0 {
            Some(clean_text(text))
        } else {
            None
        },
        _ => None,
    }
}

pub open spec fn opt_seq(v: Option<Seq<char>>) -> Seq<Seq<char>> {
    match v {
        Some(x) => seq![x],
        None => Seq::empty(),
    }
}

/// The anchor values and the text values of the siblings before the first line
/// break, each in document order.
pub open spec fn basic_values(sibs: Seq<NodeView>) -> (Seq<Seq<char>>, Seq<Seq<char>>)
    decreases sibs.len(),
{
    if sibs.len() == 0 || ends_field(sibs[0]) {
        (Seq::empty(), Seq::empty())
    } else {
        let rest = basic_values(sibs.drop_first());
        (opt_seq(anchor_value(sibs[0])) + rest.0, opt_seq(text_value(sibs[0])) + rest.1)
    }
}

/// The ordered value list of a field: anchor values, then text values.
pub open spec fn field_values(sibs: Seq<NodeView>) -> Seq<Seq<char>> {
    basic_values(sibs).0 + basic_values(sibs).1
}

proof fn lemma_break_adds_nothing(n: NodeView)
    requires
        ends_field(n),
    ensures
        anchor_value(n) is None,
        text_value(n) is None,
{
    reveal_strlit("br");
    reveal_strlit("a");
    assert("br"@.len() != "a"@.len());
}

fn push_opt(v: &mut Vec<String>, x: Option<String>)
    ensures
        str_views(final(v)@) == str_views(old(v)@) + opt_seq(
            match x {
                Some(s) => Some(s@),
                None => None,
            },
        ),
{
    let ghost before = str_views(v@);
    match x {
        Some(s) => {
            v.push(s);
            assert(str_views(v@) =~= before + seq![v@.last()@]);
        },
        None => {
            assert(before + Seq::<Seq<char>>::empty() =~= before);
        },
    }
}

/// Takes one sibling of a label: an anchor's cleaned text goes to the anchor
/// bucket, a text node's to the text bucket, empty values are dropped. Returns
/// whether the node is the line break that ends the field.
pub fn parse_basic_info_text(
    node_ref: &Sibling,
    info_a_texts: &mut Vec<String>,
    info_text_texts: &mut Vec<String>,
) -> (should_end: bool)
    ensures
        should_end == ends_field(node_ref@),
        str_views(final(info_a_texts)@) == str_views(old(info_a_texts)@) + opt_seq(
            anchor_value(node_ref@),
        ),
        str_views(final(info_text_texts)@) == str_views(old(info_text_texts)@) + opt_seq(
            text_value(node_ref@),
        ),
{
    match node_ref {
        Sibling::Element { name, texts } => {
            if is_text(name.as_str(), "br") {
                proof {
                    lemma_break_adds_nothing(node_ref@);
                }
                push_opt(info_a_texts, None);
                push_opt(info_text_texts, None);
                return true;
            }
            let mut v: Option<String> = None;
            if is_text(name.as_str(), "a") && texts.len() > 0 {
                let t = clean_basic_info_text(texts[0].as_str());
                if t.as_str().unicode_len() > 0 {
                    v = Some(t);
                }
            }
            push_opt(info_a_texts, v);
            push_opt(info_text_texts, None);
            false
        },
        Sibling::Text { text } => {
            let t = clean_basic_info_text(text.as_str());
            let v = if t.as_str().unicode_len() > 0 {
                Some(t)
            } else {
                None
            };
            push_opt(info_a_texts, None);
            push_opt(info_text_texts, v);
            false
        },
        Sibling::Other => {
            push_opt(info_a_texts, None);
            push_opt(info_text_texts, None);
            false
        },
    }
}

/// Walks the siblings after a label up to the first line break and returns the
/// anchor bucket and the text bucket.
pub fn collect_basic_info(sibs: &Vec<Sibling>) -> (r: (Vec<String>, Vec<String>))
    ensures
        str_views(r.0@) == basic_values(sib_views(sibs@)).0,
        str_views(r.1@) == basic_values(sib_views(sibs@)).1,
{
    let ghost vs = sib_views(sibs@);
    let mut a: Vec<String> = Vec::new();
    let mut t: Vec<String> = Vec::new();
    let n = sibs.len();
    let mut i: usize = 0;
    assert(vs.subrange(0, n as int) =~= vs);
    assert(str_views(a@) =~= Seq::<Seq<char>>::empty());
    assert(str_views(t@) =~= Seq::<Seq<char>>::empty());
    while i < n
        invariant
            n == sibs@.len(),
            vs == sib_views(sibs@),
            i <= n,
            str_views(a@) + basic_values(vs.subrange(i as int, n as int)).0 == basic_values(vs).0,
            str_views(t@) + basic_values(vs.subrange(i as int, n as int)).1 == basic_values(vs).1,
        decreases n - i,
    {
        let ghost rest = vs.subrange(i as int, n as int);
        assert(rest[0] == sibs@[i as int]@);
        assert(rest.drop_first() =~= vs.subrange(i + 1, n as int));
        let ghost a0 = str_views(a@);
        let ghost t0 = str_views(t@);
        if parse_basic_info_text(&sibs[i], &mut a, &mut t) {
            proof {
                lemma_break_adds_nothing(sibs@[i as int]@);
            }
            assert(str_views(a@) =~= a0 + Seq::<Seq<char>>::empty());
            assert(str_views(t@) =~= t0 + Seq::<Seq<char>>::empty());
            assert(str_views(a@) + basic_values(rest).0 =~= str_views(a@));
            assert(str_views(t@) + basic_values(rest).1 =~= str_views(t@));
            return (a, t);
        }
        let ghost next = basic_values(vs.subrange(i + 1, n as int));
        assert(str_views(a@) + next.0 =~= a0 + (opt_seq(anchor_value(sibs@[i as int]@)) + next.0));
        assert(str_views(t@) + next.1 =~= t0 + (opt_seq(text_value(sibs@[i as int]@)) + next.1));
        i += 1;
    }
    assert(str_views(a@) + basic_values(vs.subrange(n as int, n as int)).0 =~= str_views(a@));
    assert(str_views(t@) + basic_values(vs.subrange(n as int, n as int)).1 =~= str_views(t@));
    (a, t)
}

/// A field's value ends at the first line break: the siblings after it are
/// never read.
pub proof fn lemma_basic_values_stop_at_break(a: Seq<NodeView>, br: NodeView, b: Seq<NodeView>)
    requires
        ends_field(br),
    ensures
        basic_values(a + seq![br] + b) == basic_values(a),
    decreases a.len(),
{
    let s = a + seq![br] + b;
    if a.len() == 0 {
        assert(s[0] == br);
    } else {
        assert(s[0] == a[0]);
        assert(s.drop_first() =~= a.drop_first() + seq![br] + b);
        lemma_basic_values_stop_at_break(a.drop_first(), br, b);
    }
}


/// The record fields that the basic-info block fills.
#[derive(Clone, Copy, PartialEq, Eq, Debug, Structural)]
pub enum BasicField {
    OriginTitle,
    Subtitle,
    Author,
    Translator,
    Press,
    Producer,
    PublicationYear,
    PageNum,
    Price,
    Binding,
    Series,
    Isbn,
    UnifiedBookNumber,
}

/// The field that a cleaned label names.
pub open spec fn field_of_key(k: Seq<char>) -> Option<BasicField> {
    if k == "原作名"@ {
        Some(BasicField::OriginTitle)
    } else if k == "副标题"@ {
        Some(BasicField::Subtitle)
    } else if k == "作者"@ {
        Some(BasicField::Author)
    } else if k == "译者"@ {
        Some(BasicField::Translator)
    } else if k == "出版社"@ {
        Some(BasicField::Press)
    } else if k == "出品方"@ {
        Some(BasicField::Producer)
    } else if k == "出版年"@ {
        Some(BasicField::PublicationYear)
    } else if k == "页数"@ {
        Some(BasicField::PageNum)
    } else if k == "定价"@ {
        Some(BasicField::Price)
    } else if k == "装帧"@ {
        Some(BasicField::Binding)
    } else if k == "丛书"@ {
        Some(BasicField::Series)
    } else if k == "isbn"@ || k == "ISBN"@ {
        Some(BasicField::Isbn)
    } else if k == "统一书号"@ {
        Some(BasicField::UnifiedBookNumber)
    } else {
        None
    }
}

/// Looks a cleaned label up in the field table.
pub fn basic_field(key: &str) -> (r: Option<BasicField>)
    ensures
        r == field_of_key(key@),
{
    if is_text(key, "原作名") {
        Some(BasicField::OriginTitle)
    } else if is_text(key, "副标题") {
        Some(BasicField::Subtitle)
    } else if is_text(key, "作者") {
        Some(BasicField::Author)
    } else if is_text(key, "译者") {
        Some(BasicField::Translator)
    } else if is_text(key, "出版社") {
        Some(BasicField::Press)
    } else if is_text(key, "出品方") {
        Some(BasicField::Producer)
    } else if is_text(key, "出版年") {
        Some(BasicField::PublicationYear)
    } else if is_text(key, "页数") {
        Some(BasicField::PageNum)
    } else if is_text(key, "定价") {
        Some(BasicField::Price)
    } else if is_text(key, "装帧") {
        Some(BasicField::Binding)
    } else if is_text(key, "丛书") {
        Some(BasicField::Series)
    } else if is_text(key, "isbn") || is_text(key, "ISBN") {
        Some(BasicField::Isbn)
    } else if is_text(key, "统一书号") {
        Some(BasicField::UnifiedBookNumber)
    } else {
        None
    }
}

/// A name with its inner spaces removed.
pub open spec fn without_spaces(v: Seq<char>) -> Seq<char> {
    remove_all(v, seq![' '])
}

/// `b` with field `f` set from the non-empty value list `vals`: the first value,
/// or for the people fields every value without spaces, appended.
pub open spec fn with_field(b: BookView, f: BasicField, vals: Seq<Seq<char>>) -> BookView {
    match f {
        BasicField::OriginTitle => BookView { origin_title: vals[0], ..b },
        BasicField::Subtitle => BookView { subtitle: vals[0], ..b },
        BasicField::Author => BookView {
            author: b.author + vals.map_values(|v: Seq<char>| without_spaces(v)),
            ..b
        },
        BasicField::Translator => BookView {
            translator: b.translator + vals.map_values(|v: Seq<char>| without_spaces(v)),
            ..b
        },
        BasicField::Press => BookView { press: vals[0], ..b },
        BasicField::Producer => BookView { producer: vals[0], ..b },
        BasicField::PublicationYear => BookView { publication_year: vals[0], ..b },
        BasicField::PageNum => BookView { page_num: vals[0], ..b },
        BasicField::Price => BookView { price: vals[0], ..b },
        BasicField::Binding => BookView { binding: vals[0], ..b },
        BasicField::Series => BookView { series: vals[0], ..b },
        BasicField::Isbn => BookView { isbn: vals[0], ..b },
        BasicField::UnifiedBookNumber => BookView { unified_book_number: vals[0], ..b },
    }
}

/// `b` after the field named by `key` takes the values `vals`; an unknown key or
/// an empty list leaves it as it is.
pub open spec fn filled(b: BookView, key: Seq<char>, vals: Seq<Seq<char>>) -> BookView {
    if vals.len() == 0 {
        b
    } else {
        match field_of_key(key) {
            Some(f) => with_field(b, f, vals),
            None => b,
        }
    }
}

/// Appends each value, with its spaces removed, to a list of names.
fn append_names(names: &mut Vec<String>, vals: &Vec<String>)
    ensures
        str_views(final(names)@) == str_views(old(names)@) + str_views(vals@).map_values(
            |v: Seq<char>| without_spaces(v),
        ),
{
    let ghost start = str_views(names@);
    let space = vec![' '];
    assert(space@ == seq![' ']);
    let mut i: usize = 0;
    while i < vals.len()
        invariant
            i <= vals@.len(),
            space@ == seq![' '],
            str_views(names@) == start + str_views(vals@.subrange(0, i as int)).map_values(
                |v: Seq<char>| without_spaces(v),
            ),
        decreases vals@.len() - i,
    {
        let v = string_of(&remove_all_chars(&chars_of(vals[i].as_str()), &space));
        let ghost before = str_views(names@);
        names.push(v);
        assert(str_views(names@) =~= before.push(without_spaces(vals@[i as int]@)));
        assert(str_views(vals@.subrange(0, i + 1)).map_values(|v: Seq<char>| without_spaces(v))
            =~= str_views(vals@.subrange(0, i as int)).map_values(
            |v: Seq<char>| without_spaces(v),
        ).push(without_spaces(vals@[i as int]@)));
        i += 1;
    }
    assert(vals@.subrange(0, vals@.len() as int) =~= vals@);
}

/// Sets the field that `info_type` names from the anchor values followed by the
/// text values.
pub fn fill_basic_info_value(
    book: &mut Book,
    info_type: &str,
    info_text_texts: Vec<String>,
    info_a_texts: Vec<String>,
)
    ensures
        final(book)@ == filled(
            old(book)@,
            info_type@,
            str_views(info_a_texts@) + str_views(info_text_texts@),
        ),
{
    let mut info_texts = info_a_texts;
    let mut i: usize = 0;
    let ghost a = str_views(info_texts@);
    while i < info_text_texts.len()
        invariant
            i <= info_text_texts@.len(),
            str_views(info_texts@) == a + str_views(info_text_texts@.subrange(0, i as int)),
        decreases info_text_texts@.len() - i,
    {
        let ghost before = str_views(info_texts@);
        info_texts.push(info_text_texts[i].clone());
        assert(str_views(info_texts@) =~= before.push(info_text_texts@[i as int]@));
        assert(str_views(info_text_texts@.subrange(0, i + 1)) =~= str_views(
            info_text_texts@.subrange(0, i as int),
        ).push(info_text_texts@[i as int]@));
        assert(str_views(info_texts@) =~= a + str_views(info_text_texts@.subrange(0, i + 1)));
        i += 1;
    }
    assert(info_text_texts@.subrange(0, info_text_texts@.len() as int) =~= info_text_texts@);
    let ghost vals = str_views(info_texts@);
    if info_texts.len() == 0 {
        return;
    }
    assert(vals[0] == info_texts@[0]@);
    let single = info_texts[0].clone();
    match basic_field(info_type) {
        Some(BasicField::OriginTitle) => book.origin_title = single,
        Some(BasicField::Subtitle) => book.subtitle = single,
        Some(BasicField::Author) => append_names(&mut book.author, &info_texts),
        Some(BasicField::Translator) => append_names(&mut book.translator, &info_texts),
        Some(BasicField::Press) => book.press = single,
        Some(BasicField::Producer) => book.producer = single,
        Some(BasicField::PublicationYear) => book.publication_year = single,
        Some(BasicField::PageNum) => book.page_num = single,
        Some(BasicField::Price) => book.price = single,
        Some(BasicField::Binding) => book.binding = single,
        Some(BasicField::Series) => book.series = single,
        Some(BasicField::Isbn) => book.isbn = single,
        Some(BasicField::UnifiedBookNumber) => book.unified_book_number = single,
        None => {},
    }
}


/// The star bucket that a label names.
pub open spec fn star_of(l: Seq<char>) -> Option<Star> {
    if l == "5星"@ {
        Some(Star::Five)
    } else if l == "4星"@ {
        Some(Star::Four)
    } else if l == "3星"@ {
        Some(Star::Three)
    } else if l == "2星"@ {
        Some(Star::Two)
    } else if l == "1星"@ {
        Some(Star::One)
    } else {
        None
    }
}

/// A percentage text: every `%` removed, white space trimmed, then read as a decimal.
pub open spec fn pct_of(t: Seq<char>) -> Option<Decimal> {
    match decimal_of(trimmed(remove_all(t, seq!['%']))) {
        Some((u, sc)) => Some(Decimal { units: u, scale: sc as usize }),
        None => None,
    }
}

/// Sets the bucket that `star_desc` names; returns whether the label is known.
pub fn fill_star_value(score: &mut Score, star_value: Decimal, star_desc: &str) -> (r: bool)
    ensures
        r == star_of(star_desc@) is Some,
        *final(score) == match star_of(star_desc@) {
            Some(k) => with_star(*old(score), k, star_value),
            None => *old(score),
        },
{
    if is_text(star_desc, "5星") {
        score.set_star(Star::Five, star_value);
    } else if is_text(star_desc, "4星") {
        score.set_star(Star::Four, star_value);
    } else if is_text(star_desc, "3星") {
        score.set_star(Star::Three, star_value);
    } else if is_text(star_desc, "2星") {
        score.set_star(Star::Two, star_value);
    } else if is_text(star_desc, "1星") {
        score.set_star(Star::One, star_value);
    } else {
        return false;
    }
    true
}

/// Reads a percentage text.
pub fn parse_percent(t: &str) -> (r: Option<Decimal>)
    ensures
        r == pct_of(t@),
{
    let pct = vec!['%'];
    assert(pct@ == seq!['%']);
    let v = trim_chars(&remove_all_chars(&chars_of(t), &pct));
    match parse_decimal(&v) {
        Some(d) => Some(d),
        None => None,
    }
}

/// One label and value pair of the walk: a known label and a readable value set
/// their bucket; anything else leaves the score as it is.
pub open spec fn star_step(s: Score, label: Seq<char>, value: Seq<char>) -> Score {
    match (star_of(label), pct_of(value)) {
        (Some(k), Some(d)) => with_star(s, k, d),
        _ => s,
    }
}

/// The two-state walk over the rating tokens: with no label pending the next token
/// is a label; with one pending it is that label's value.
pub open spec fn star_walk(s: Score, pending: Option<Seq<char>>, toks: Seq<Seq<char>>) -> Score
    decreases toks.len(),
{
    if toks.len() == 0 {
        s
    } else {
        match pending {
            None => star_walk(s, Some(toks[0]), toks.drop_first()),
            Some(l) => star_walk(star_step(s, l, toks[0]), None, toks.drop_first()),
        }
    }
}

/// The trimmed, non-blank pieces of `texts`, in order.
pub open spec fn nonblank(texts: Seq<Seq<char>>) -> Seq<Seq<char>>
    decreases texts.len(),
{
    if texts.len() == 0 {
        Seq::empty()
    } else {
        let r = nonblank(texts.drop_last());
        if trimmed(texts.last()).len() > 0 {
            r.push(trimmed(texts.last()))
        } else {
            r
        }
    }
}

/// The tokens of the rating breakdown: the non-blank text pieces of the element
/// siblings, in document order.
pub open spec fn star_tokens(sibs: Seq<NodeView>) -> Seq<Seq<char>>
    decreases sibs.len(),
{
    if sibs.len() == 0 {
        Seq::empty()
    } else {
        star_tokens(sibs.drop_last()) + match sibs.last() {
            NodeView::Element { texts, .. } => nonblank(texts),
            _ => Seq::empty(),
        }
    }
}

/// Appends the trimmed, non-blank pieces of `texts` to `out`.
fn push_nonblank(out: &mut Vec<String>, texts: &Vec<String>)
    ensures
        str_views(final(out)@) == str_views(old(out)@) + nonblank(str_views(texts@)),
{
    let ghost start = str_views(out@);
    let mut i: usize = 0;
    assert(str_views(texts@.subrange(0, 0)) =~= Seq::<Seq<char>>::empty());
    assert(start + nonblank(Seq::empty()) =~= start);
    while i < texts.len()
        invariant
            i <= texts@.len(),
            str_views(out@) == start + nonblank(str_views(texts@.subrange(0, i as int))),
        decreases texts@.len() - i,
    {
        let ghost pre = str_views(texts@.subrange(0, i + 1));
        assert(pre.drop_last() =~= str_views(texts@.subrange(0, i as int)));
        assert(pre.last() == texts@[i as int]@);
        let t = string_of(&trim_chars(&chars_of(texts[i].as_str())));
        if t.as_str().unicode_len() > 0 {
            let ghost before = str_views(out@);
            out.push(t);
            assert(str_views(out@) =~= before.push(trimmed(texts@[i as int]@)));
        }
        i += 1;
    }
    assert(texts@.subrange(0, texts@.len() as int) =~= texts@);
}

/// The rating tokens of a run of siblings.
pub fn collect_star_tokens(sibs: &Vec<Sibling>) -> (r: Vec<String>)
    ensures
        str_views(r@) == star_tokens(sib_views(sibs@)),
{
    let ghost vs = sib_views(sibs@);
    let mut out: Vec<String> = Vec::new();
    let mut i: usize = 0;
    assert(str_views(out@) =~= star_tokens(vs.subrange(0, 0)));
    while i < sibs.len()
        invariant
            i <= sibs@.len(),
            vs == sib_views(sibs@),
            str_views(out@) == star_tokens(vs.subrange(0, i as int)),
        decreases sibs@.len() - i,
    {
        let ghost pre = vs.subrange(0, i + 1);
        assert(pre.drop_last() =~= vs.subrange(0, i as int));
        assert(pre.last() == sibs@[i as int]@);
        match &sibs[i] {
            Sibling::Element { texts, .. } => push_nonblank(&mut out, texts),
            _ => {
                assert(str_views(out@) + Seq::<Seq<char>>::empty() =~= str_views(out@));
            },
        }
        i += 1;
    }
    assert(vs.subrange(0, sibs@.len() as int) =~= vs);
    out
}

/// Runs the two-state walk over the rating tokens of the siblings that follow the
/// breakdown anchor.
pub fn parse_score_star_percent_core(sibs: &Vec<Sibling>, score: &mut Score)
    ensures
        *final(score) == star_walk(*old(score), None, star_tokens(sib_views(sibs@))),
{
    let toks = collect_star_tokens(sibs);
    let ghost all = str_views(toks@);
    let n = toks.len();
    let mut pending: Option<String> = None;
    let mut i: usize = 0;
    assert(all.subrange(0, n as int) =~= all);
    while i < n
        invariant
            n == toks@.len(),
            all == str_views(toks@),
            i <= n,
            star_walk(
                *score,
                match pending {
                    Some(l) => Some(l@),
                    None => None,
                },
                all.subrange(i as int, n as int),
            ) == star_walk(*old(score), None, all),
        decreases n - i,
    {
        let ghost rest = all.subrange(i as int, n as int);
        assert(rest[0] == toks@[i as int]@);
        assert(rest.drop_first() =~= all.subrange(i + 1, n as int));
        match pending {
            None => {
                pending = Some(toks[i].clone());
            },
            Some(label) => {
                match parse_percent(toks[i].as_str()) {
                    Some(v) => {
                        fill_star_value(score, v, label.as_str());
                    },
                    None => {},
                }
                pending = None;
            },
        }
        i += 1;
    }
}

/// An unknown label and its value, standing where a label is expected, are dropped
/// and nothing else changes: the pairs before and after them are read as if they
/// were not there.
pub proof fn lemma_star_walk_skips_unknown(
    s: Score,
    before: Seq<Seq<char>>,
    label: Seq<char>,
    value: Seq<char>,
    after: Seq<Seq<char>>,
)
    requires
        before.len() % 2 == 0,
        star_of(label) is None,
    ensures
        star_walk(s, None, before + seq![label, value] + after) == star_walk(
            s,
            None,
            before + after,
        ),
    decreases before.len(),
{
    let t = before + seq![label, value] + after;
    if before.len() == 0 {
        assert(t[0] == label);
        assert(t.drop_first()[0] == value);
        assert(t.drop_first().drop_first() =~= after);
        assert(before + after =~= after);
        assert(star_walk(s, None, t) == star_walk(s, Some(label), t.drop_first()));
        assert(star_walk(s, Some(label), t.drop_first()) == star_walk(
            star_step(s, label, value),
            None,
            after,
        ));
    } else {
        let b2 = before.subrange(2, before.len() as int);
        assert(t[0] == before[0]);
        assert(t.drop_first()[0] == before[1]);
        assert(t.drop_first().drop_first() =~= b2 + seq![label, value] + after);
        let u = before + after;
        assert(u[0] == before[0]);
        assert(u.drop_first()[0] == before[1]);
        assert(u.drop_first().drop_first() =~= b2 + after);
        let s2 = star_step(s, before[0], before[1]);
        assert(star_walk(s, None, t) == star_walk(s, Some(before[0]), t.drop_first()));
        assert(star_walk(s, Some(before[0]), t.drop_first()) == star_walk(
            s2,
            None,
            t.drop_first().drop_first(),
        ));
        assert(star_walk(s, None, u) == star_walk(s, Some(before[0]), u.drop_first()));
        assert(star_walk(s, Some(before[0]), u.drop_first()) == star_walk(
            s2,
            None,
            u.drop_first().drop_first(),
        ));
        lemma_star_walk_skips_unknown(s2, b2, label, value, after);
    }
}


/// The characters trimmed from both ends of each directory line.
pub open spec fn dir_marks() -> Seq<char> {
    seq!['\n', '\t', ' ', '(', ')', '·']
}

/// The marker line that folds a directory away.
pub open spec fn collapsed_marker() -> Seq<char> {
    "收起"@
}

/// What one text piece of an intro or a directory becomes: trimmed, and for a
/// directory also stripped of its marks at both ends; dropped where nothing is left
/// or where it is the folding marker of a directory.
pub open spec fn related_piece(s: Seq<char>, is_dir: bool) -> Option<Seq<char>> {
    let t = if is_dir {
        strip(trimmed(s), class(dir_marks(), false))
    } else {
        trimmed(s)
    };
    if t.len() == 0 || (is_dir && t == collapsed_marker()) {
        None
    } else {
        Some(t)
    }
}

/// The kept pieces of `texts`, in order.
pub open spec fn related_pieces(texts: Seq<Seq<char>>, is_dir: bool) -> Seq<Seq<char>>
    decreases texts.len(),
{
    if texts.len() == 0 {
        Seq::empty()
    } else {
        related_pieces(texts.drop_last(), is_dir) + opt_seq(related_piece(texts.last(), is_dir))
    }
}

/// The text of an intro or a directory: its kept pieces, one per line.
pub open spec fn related_text(texts: Seq<Seq<char>>, is_dir: bool) -> Seq<char> {
    join(related_pieces(texts, is_dir), seq!['\n'])
}

/// Joins the kept pieces of `texts` with newlines.
pub fn clean_related_info_text(texts: &Vec<String>, is_dir: bool) -> (r: String)
    ensures
        r@ == related_text(str_views(texts@), is_dir),
{
    let marks = vec!['\n', '\t', ' ', '(', ')', '·'];
    assert(marks@ == dir_marks());
    let marker = chars_of("收起");
    let mut kept: Vec<String> = Vec::new();
    let mut i: usize = 0;
    assert(str_views(texts@.subrange(0, 0)) =~= Seq::<Seq<char>>::empty());
    assert(str_views(kept@) =~= Seq::<Seq<char>>::empty());
    while i < texts.len()
        invariant
            i <= texts@.len(),
            marks@ == dir_marks(),
            marker@ == collapsed_marker(),
            str_views(kept@) == related_pieces(str_views(texts@.subrange(0, i as int)), is_dir),
        decreases texts@.len() - i,
    {
        let ghost pre = str_views(texts@.subrange(0, i + 1));
        assert(pre.drop_last() =~= str_views(texts@.subrange(0, i as int)));
        assert(pre.last() == texts@[i as int]@);
        let mut t = trim_chars(&chars_of(texts[i].as_str()));
        if is_dir {
            t = strip_chars(&t, &marks, false);
        }
        let ghost before = str_views(kept@);
        if t.len() > 0 && !(is_dir && same_chars(&t, &marker)) {
            kept.push(string_of(&t));
            assert(str_views(kept@) =~= before + seq![t@]);
        } else {
            assert(before + Seq::<Seq<char>>::empty() =~= before);
        }
        i += 1;
    }
    assert(texts@.subrange(0, texts@.len() as int) =~= texts@);
    proof {
        reveal_strlit("\n");
        assert("\n"@ =~= seq!['\n']);
    }
    join_strings(kept.as_slice(), "\n")
}

/// Each kept line of a directory is non-empty, is not the folding marker, and
/// neither begins nor ends with a directory mark; the text is those lines joined
/// with newlines.
pub proof fn lemma_directory_lines(texts: Seq<Seq<char>>)
    ensures
        related_text(texts, true) == join(related_pieces(texts, true), seq!['\n']),
        forall|i: int|
            0 <= i < related_pieces(texts, true).len() ==> {
                let l = #[trigger] related_pieces(texts, true)[i];
                &&& l.len() > 0
                &&& l != collapsed_marker()
                &&& !dir_marks().contains(l[0])
                &&& !dir_marks().contains(l.last())
            },
    decreases texts.len(),
{
    if texts.len() > 0 {
        lemma_directory_lines(texts.drop_last());
        let t0 = trimmed(texts.last());
        lemma_strip_within(t0, class(dir_marks(), false));
        let prev = related_pieces(texts.drop_last(), true);
        let all = related_pieces(texts, true);
        assert(all == prev + opt_seq(related_piece(texts.last(), true)));
        assert forall|i: int| 0 <= i < all.len() implies {
            let l = #[trigger] all[i];
            &&& l.len() > 0
            &&& l != collapsed_marker()
            &&& !dir_marks().contains(l[0])
            &&& !dir_marks().contains(l.last())
        } by {
            if i < prev.len() {
                assert(all[i] == prev[i]);
            }
        }
    }
}

/// The cleaned text of a heading or a number: white space trimmed from the first
/// text piece, if there is one.
pub open spec fn first_piece(texts: Option<Seq<Seq<char>>>) -> Option<Seq<char>> {
    match texts {
        Some(t) => if t.len() > 0 {
            Some(trimmed(t[0]))
        } else {
            None
        },
        None => None,
    }
}

pub open spec fn opt_views(texts: Option<Vec<String>>) -> Option<Seq<Seq<char>>> {
    match texts {
        Some(t) => Some(str_views(t@)),
        None => None,
    }
}

/// The trimmed first text piece, if there is one.
pub fn first_trimmed(texts: &Option<Vec<String>>) -> (r: Option<String>)
    ensures
        match r {
            Some(s) => first_piece(opt_views(*texts)) == Some(s@),
            None => first_piece(opt_views(*texts)) is None,
        },
{
    match texts {
        Some(t) => if t.len() > 0 {
            Some(string_of(&trim_chars(&chars_of(t[0].as_str()))))
        } else {
            None
        },
        None => None,
    }
}

/// `s` with the average rating read from the first text piece, where it reads as
/// a decimal.
pub open spec fn with_rating_num(s: Score, texts: Option<Seq<Seq<char>>>) -> Score {
    match first_piece(texts) {
        Some(t) => match decimal_of(t) {
            Some((u, sc)) => Score { score: Decimal { units: u, scale: sc as usize }, ..s },
            None => s,
        },
        None => s,
    }
}

/// `s` with the rating count read from the first text piece, where it reads as an
/// integer.
pub open spec fn with_rating_people(s: Score, texts: Option<Seq<Seq<char>>>) -> Score {
    match first_piece(texts) {
        Some(t) => match int_of(t) {
            Some(v) => Score { score_num: v as i32, ..s },
            None => s,
        },
        None => s,
    }
}

/// Sets the average rating from the text pieces of its element, where the first
/// one reads as a decimal.
pub fn parse_score_rating_num(texts: &Option<Vec<String>>, score: &mut Score)
    ensures
        *final(score) == with_rating_num(*old(score), opt_views(*texts)),
{
    match first_trimmed(texts) {
        Some(t) => match parse_decimal(&chars_of(t.as_str())) {
            Some(d) => score.score = d,
            None => {},
        },
        None => {},
    }
}

/// Sets the rating count from the text pieces of its element, where the first one
/// reads as an integer.
pub fn parse_score_rating_people(texts: &Option<Vec<String>>, score: &mut Score)
    ensures
        *final(score) == with_rating_people(*old(score), opt_views(*texts)),
{
    match first_trimmed(texts) {
        Some(t) => match parse_i32(&chars_of(t.as_str())) {
            Some(v) => score.score_num = v,
            None => {},
        },
        None => {},
    }
}


pub open spec fn intro_views(v: Seq<Vec<String>>) -> Seq<Seq<Seq<char>>> {
    v.map_values(|x: Vec<String>| str_views(x@))
}

/// `b` after the related-info pass. With a report block, its first intro is the
/// content intro, the outer intros are skipped as many as the report holds, and
/// the last one left is the author intro. Without one, the first outer intro is
/// the content intro. The directory, where found, is cleaned line by line.
pub open spec fn related_view(
    b: BookView,
    report: Option<Seq<Seq<Seq<char>>>>,
    all: Seq<Seq<Seq<char>>>,
    dir: Option<Seq<Seq<char>>>,
) -> BookView {
    let b1 = match report {
        Some(r) => {
            let c = if r.len() > 0 {
                BookView { content_intro: related_text(r[0], false), ..b }
            } else {
                b
            };
            if r.len() < all.len() {
                BookView { author_intro: related_text(all.last(), false), ..c }
            } else {
                c
            }
        },
        None => if all.len() > 0 {
            BookView { content_intro: related_text(all[0], false), ..b }
        } else {
            b
        },
    };
    match dir {
        Some(d) => BookView { directory: related_text(d, true), ..b1 },
        None => b1,
    }
}

pub open spec fn opt_intro_views(v: Option<Vec<Vec<String>>>) -> Option<Seq<Seq<Seq<char>>>> {
    match v {
        Some(x) => Some(intro_views(x@)),
        None => None,
    }
}

/// Sets the intros and the directory from the text pieces of their blocks.
pub fn fill_related_info(
    book: &mut Book,
    report_intros: &Option<Vec<Vec<String>>>,
    all_intros: &Vec<Vec<String>>,
    dir_texts: &Option<Vec<String>>,
)
    ensures
        final(book)@ == related_view(
            old(book)@,
            opt_intro_views(*report_intros),
            intro_views(all_intros@),
            opt_views(*dir_texts),
        ),
{
    let ghost all = intro_views(all_intros@);
    match report_intros {
        Some(r) => {
            if r.len() > 0 {
                book.content_intro = clean_related_info_text(&r[0], false);
                assert(intro_views(r@)[0] == str_views(r@[0]@));
            }
            if r.len() < all_intros.len() {
                let k = all_intros.len() - 1;
                book.author_intro = clean_related_info_text(&all_intros[k], false);
                assert(all.last() == str_views(all_intros@[k as int]@));
            }
        },
        None => {
            if all_intros.len() > 0 {
                book.content_intro = clean_related_info_text(&all_intros[0], false);
                assert(all[0] == str_views(all_intros@[0]@));
            }
        },
    }
    match dir_texts {
        Some(d) => book.directory = clean_related_info_text(d, true),
        None => {},
    }
}


/// The key of the directory block of the book with identifier `id`.
pub open spec fn directory_key(id: Seq<char>) -> Seq<char> {
    "dir_"@ + id + "_full"@
}

pub fn make_directory_key(id: &str) -> (r: String)
    ensures
        r@ == directory_key(id@),
{
    let mut k = String::from_str("dir_");
    k.append(id);
    k.append("_full");
    k
}

pub open spec fn path1(p: Seq<char>) -> Seq<(Seq<char>, nat)> {
    seq![(p, 0nat)]
}

/// The text pieces of the first element below `path` that `p` matches.
pub open spec fn first_texts_at(m: Seq<char>, path: Seq<(Seq<char>, nat)>, p: Seq<char>) -> Option<
    Seq<Seq<char>>,
> {
    if elem_matches(m, path, p) > 0 {
        Some(elem_texts(m, path.push((p, 0nat))))
    } else {
        None
    }
}

/// The text pieces of each element below `path` that `p` matches.
pub open spec fn texts_each(m: Seq<char>, path: Seq<(Seq<char>, nat)>, p: Seq<char>) -> Seq<
    Seq<Seq<char>>,
> {
    Seq::new(elem_matches(m, path, p), |i: int| elem_texts(m, path.push((p, i as nat))))
}

pub open spec fn info_pat() -> Seq<char> {
    r#"div[id="info"]"#@
}

pub open spec fn label_pat() -> Seq<char> {
    r#"span[class="pl"]"#@
}

pub open spec fn wrap_pat() -> Seq<char> {
    r#"div[class="rating_wrap clearbox"]"#@
}

pub open spec fn num_pat() -> Seq<char> {
    r#"strong[class="ll rating_num "]"#@
}

pub open spec fn people_pat() -> Seq<char> {
    r#"a[class="rating_people"]"#@
}

pub open spec fn self_pat() -> Seq<char> {
    r#"div[class="rating_self clearfix"]"#@
}

pub open spec fn related_pat() -> Seq<char> {
    r#"div[class="related_info"]"#@
}

pub open spec fn report_pat() -> Seq<char> {
    r#"div[id="link-report"]"#@
}

pub open spec fn intro_pat() -> Seq<char> {
    r#"div[class="intro"]"#@
}

/// The title pass: the first text piece of the first span of the first top-level
/// heading, trimmed; the title stays as it is where any of them is missing.
pub open spec fn title_pass(m: Seq<char>, b: BookView) -> BookView {
    if doc_matches(m, "h1"@) > 0 {
        match first_piece(first_texts_at(m, path1("h1"@), "span"@)) {
            Some(t) => BookView { title: t, ..b },
            None => b,
        }
    } else {
        b
    }
}

/// One label of the info block at `lp`: its cleaned first text piece names the
/// field that the values of its following siblings fill.
pub open spec fn label_step(m: Seq<char>, lp: Seq<(Seq<char>, nat)>, b: BookView) -> BookView {
    let t = elem_texts(m, lp);
    if t.len() > 0 {
        filled(b, clean_type(t[0]), field_values(elem_next_siblings(m, lp)))
    } else {
        b
    }
}

/// The first `n` labels of the info block at `ip`, in document order.
pub open spec fn labels_fill(m: Seq<char>, ip: Seq<(Seq<char>, nat)>, b: BookView, n: nat) -> BookView
    decreases n,
{
    if n == 0 {
        b
    } else {
        label_step(
            m,
            ip.push((label_pat(), (n - 1) as nat)),
            labels_fill(m, ip, b, (n - 1) as nat),
        )
    }
}

/// The basic-info pass: every label of the first info block, in document order.
pub open spec fn basic_pass(m: Seq<char>, b: BookView) -> BookView {
    if doc_matches(m, info_pat()) > 0 {
        labels_fill(m, path1(info_pat()), b, elem_matches(m, path1(info_pat()), label_pat()))
    } else {
        b
    }
}

/// The rating of a document: from zero, the average, the count and the star walk
/// over the siblings after the breakdown block, of the first rating block.
pub open spec fn score_of(m: Seq<char>) -> Score {
    let zero = empty_book(Seq::empty()).score;
    if doc_matches(m, wrap_pat()) > 0 {
        let w = path1(wrap_pat());
        let s1 = with_rating_num(zero, first_texts_at(m, w, num_pat()));
        let s2 = with_rating_people(s1, first_texts_at(m, w, people_pat()));
        if elem_matches(m, w, self_pat()) > 0 {
            star_walk(s2, None, star_tokens(elem_next_siblings(m, w.push((self_pat(), 0nat)))))
        } else {
            s2
        }
    } else {
        zero
    }
}

/// The rating pass: the score is replaced by the document's.
pub open spec fn score_pass(m: Seq<char>, b: BookView) -> BookView {
    BookView { score: score_of(m), ..b }
}

/// The text pieces of the first element below `r`, from the `i`-th match of `p` on,
/// whose id is `key`.
pub open spec fn find_dir_from(
    m: Seq<char>,
    r: Seq<(Seq<char>, nat)>,
    p: Seq<char>,
    key: Seq<char>,
    i: nat,
) -> Option<Seq<Seq<char>>>
    decreases elem_matches(m, r, p) - i,
{
    if i >= elem_matches(m, r, p) {
        None
    } else if elem_attr(m, r.push((p, i)), "id"@) == Some(key) {
        Some(elem_texts(m, r.push((p, i))))
    } else {
        find_dir_from(m, r, p, key, i + 1)
    }
}

/// The related-info pass over the first related-info block.
pub open spec fn related_pass(m: Seq<char>, b: BookView) -> BookView {
    if doc_matches(m, related_pat()) > 0 {
        let r = path1(related_pat());
        let report = if elem_matches(m, r, report_pat()) > 0 {
            Some(texts_each(m, r.push((report_pat(), 0nat)), intro_pat()))
        } else {
            None
        };
        related_view(
            b,
            report,
            texts_each(m, r, intro_pat()),
            find_dir_from(m, r, "div"@, directory_key(book_id(b.location)), 0),
        )
    } else {
        b
    }
}

/// Whether every pattern of the book page is well formed.
pub open spec fn book_patterns_ok() -> bool {
    &&& selector_ok("h1"@) && selector_ok("span"@)
    &&& selector_ok(info_pat()) && selector_ok(label_pat())
    &&& selector_ok(wrap_pat()) && selector_ok(num_pat()) && selector_ok(people_pat())
    &&& selector_ok(self_pat())
    &&& selector_ok(related_pat()) && selector_ok(report_pat()) && selector_ok(intro_pat())
    &&& selector_ok("div"@)
}

/// The text pieces of each element that `p` matches below `e`.
pub(crate) fn texts_of_each(e: &Elem, p: &Pattern) -> (r: Vec<Vec<String>>)
    ensures
        intro_views(r@) == texts_each(e.markup(), e.path(), p.text()),
{
    let found = select_in(e, p);
    let mut out: Vec<Vec<String>> = Vec::new();
    let mut i: usize = 0;
    while i < found.len()
        invariant
            i <= found@.len(),
            found@.len() == elem_matches(e.markup(), e.path(), p.text()),
            forall|k: int|
                0 <= k < found@.len() ==> (#[trigger] found@[k]).markup() == e.markup()
                    && found@[k].path() == e.path().push((p.text(), k as nat)),
            out@.len() == i,
            forall|k: int|
                0 <= k < i ==> str_views(#[trigger] out@[k]@) == elem_texts(
                    e.markup(),
                    e.path().push((p.text(), k as nat)),
                ),
        decreases found@.len() - i,
    {
        out.push(texts_of(&found[i]));
        i += 1;
    }
    assert(intro_views(out@) =~= texts_each(e.markup(), e.path(), p.text()));
    out
}

/// The text pieces of the first element that `p` matches below `e`.
pub(crate) fn first_texts(e: &Elem, p: &Pattern) -> (r: Option<Vec<String>>)
    ensures
        opt_views(r) == first_texts_at(e.markup(), e.path(), p.text()),
{
    let found = select_in(e, p);
    if found.len() > 0 {
        Some(texts_of(&found[0]))
    } else {
        None
    }
}

/// Title: the first text piece of the first span of the first top-level heading,
/// trimmed; left as it is where any of them is missing.
pub fn parse_title(document: &Document, book: &mut Book) -> (r: Result<(), PatternError>)
    ensures
        r is Ok <==> selector_ok("h1"@) && selector_ok("span"@),
        r is Ok ==> final(book)@ == title_pass(document.markup(), old(book)@),
        r is Err ==> final(book)@ == old(book)@,
{
    let h1_selector = match get_selector("h1") {
        Ok(s) => s,
        Err(e) => return Err(e),
    };
    let span_selector = match get_selector("span") {
        Ok(s) => s,
        Err(e) => return Err(e),
    };
    let headings = select_in_document(document, &h1_selector);
    if headings.len() > 0 {
        match first_trimmed(&first_texts(&headings[0], &span_selector)) {
            Some(t) => book.title = t,
            None => {},
        }
    }
    Ok(())
}

/// Basic info: for each label of the first info block, in document order, the
/// values of the siblings up to the next line break fill the field that the label
/// names.
pub fn parse_basic_info(document: &Document, book: &mut Book) -> (r: Result<(), PatternError>)
    ensures
        r is Ok <==> selector_ok(info_pat()) && selector_ok(label_pat()),
        r is Ok ==> final(book)@ == basic_pass(document.markup(), old(book)@),
        r is Err ==> final(book)@ == old(book)@,
{
    let div_info_selector = match get_selector(r#"div[id="info"]"#) {
        Ok(s) => s,
        Err(e) => return Err(e),
    };
    let label_selector = match get_selector(r#"span[class="pl"]"#) {
        Ok(s) => s,
        Err(e) => return Err(e),
    };
    let infos = select_in_document(document, &div_info_selector);
    if infos.len() == 0 {
        return Ok(());
    }
    let labels = select_in(&infos[0], &label_selector);
    let ghost m = document.markup();
    let ghost ip = infos@[0].path();
    assert(ip == path1(info_pat()));
    let mut i: usize = 0;
    while i < labels.len()
        invariant
            i <= labels@.len(),
            labels@.len() == elem_matches(m, ip, label_pat()),
            forall|k: int|
                0 <= k < labels@.len() ==> (#[trigger] labels@[k]).markup() == m
                    && labels@[k].path() == ip.push((label_pat(), k as nat)),
            book@ == labels_fill(m, ip, old(book)@, i as nat),
        decreases labels@.len() - i,
    {
        let ghost lp = labels@[i as int].path();
        let label_texts = texts_of(&labels[i]);
        if label_texts.len() > 0 {
            assert(str_views(label_texts@)[0] == label_texts@[0]@);
            let info_type = clean_basic_info_type(label_texts[0].as_str());
            let siblings = next_siblings_of(&labels[i]);
            let (a, t) = collect_basic_info(&siblings);
            fill_basic_info_value(book, info_type.as_str(), t, a);
        }
        assert(labels_fill(m, ip, old(book)@, (i + 1) as nat) == label_step(m, lp, labels_fill(
            m,
            ip,
            old(book)@,
            i as nat,
        )));
        i += 1;
    }
    Ok(())
}

/// Rating: the average, the count and the star distribution of the first rating
/// block, each left zero where it cannot be read.
pub fn parse_score(document: &Document, book: &mut Book) -> (r: Result<(), PatternError>)
    ensures
        r is Ok <==> selector_ok(wrap_pat()) && selector_ok(num_pat()) && selector_ok(people_pat())
            && selector_ok(self_pat()),
        r is Ok ==> final(book)@ == score_pass(document.markup(), old(book)@),
        r is Err ==> final(book)@ == old(book)@,
{
    let wrap_selector = match get_selector(r#"div[class="rating_wrap clearbox"]"#) {
        Ok(s) => s,
        Err(e) => return Err(e),
    };
    let num_selector = match get_selector(r#"strong[class="ll rating_num "]"#) {
        Ok(s) => s,
        Err(e) => return Err(e),
    };
    let people_selector = match get_selector(r#"a[class="rating_people"]"#) {
        Ok(s) => s,
        Err(e) => return Err(e),
    };
    let self_selector = match get_selector(r#"div[class="rating_self clearfix"]"#) {
        Ok(s) => s,
        Err(e) => return Err(e),
    };
    let mut score = Score::new();
    assert(score == empty_book(Seq::empty()).score);
    let wraps = select_in_document(document, &wrap_selector);
    if wraps.len() > 0 {
        parse_score_rating_num(&first_texts(&wraps[0], &num_selector), &mut score);
        parse_score_rating_people(&first_texts(&wraps[0], &people_selector), &mut score);
        let selfs = select_in(&wraps[0], &self_selector);
        if selfs.len() > 0 {
            parse_score_star_percent_core(&next_siblings_of(&selfs[0]), &mut score);
        }
    }
    book.score = score;
    Ok(())
}

/// The text pieces of the first element that `p` matches below `e` whose id is
/// `key`.
fn find_directory(e: &Elem, p: &Pattern, key: &str) -> (r: Option<Vec<String>>)
    ensures
        opt_views(r) == find_dir_from(e.markup(), e.path(), p.text(), key@, 0),
{
    let divs = select_in(e, p);
    let ghost m = e.markup();
    let ghost path = e.path();
    let mut i: usize = 0;
    while i < divs.len()
        invariant
            i <= divs@.len(),
            m == e.markup(),
            path == e.path(),
            divs@.len() == elem_matches(m, path, p.text()),
            forall|k: int|
                0 <= k < divs@.len() ==> (#[trigger] divs@[k]).markup() == m && divs@[k].path()
                    == path.push((p.text(), k as nat)),
            find_dir_from(m, path, p.text(), key@, 0) == find_dir_from(
                m,
                path,
                p.text(),
                key@,
                i as nat,
            ),
        decreases divs@.len() - i,
    {
        assert(divs@[i as int].markup() == m);
        assert(divs@[i as int].path() == path.push((p.text(), i as nat)));
        match attr_of(&divs[i], "id") {
            Some(v) => if is_text(v.as_str(), key) {
                let t = texts_of(&divs[i]);
                assert(find_dir_from(m, path, p.text(), key@, i as nat) == Some(
                    elem_texts(m, path.push((p.text(), i as nat))),
                ));
                return Some(t);
            },
            None => {},
        }
        i += 1;
    }
    None
}

/// Related info: the content and author intros and the directory of the first
/// related-info block.
pub fn parse_related_info(document: &Document, book: &mut Book) -> (r: Result<(), PatternError>)
    ensures
        r is Ok <==> selector_ok(related_pat()) && selector_ok(report_pat()) && selector_ok(
            intro_pat(),
        ) && selector_ok("div"@),
        r is Ok ==> final(book)@ == related_pass(document.markup(), old(book)@),
        r is Err ==> final(book)@ == old(book)@,
{
    let related_selector = match get_selector(r#"div[class="related_info"]"#) {
        Ok(s) => s,
        Err(e) => return Err(e),
    };
    let report_selector = match get_selector(r#"div[id="link-report"]"#) {
        Ok(s) => s,
        Err(e) => return Err(e),
    };
    let intro_selector = match get_selector(r#"div[class="intro"]"#) {
        Ok(s) => s,
        Err(e) => return Err(e),
    };
    let div_selector = match get_selector("div") {
        Ok(s) => s,
        Err(e) => return Err(e),
    };
    let related = select_in_document(document, &related_selector);
    if related.len() > 0 {
        let reports = select_in(&related[0], &report_selector);
        let report_intros = if reports.len() > 0 {
            Some(texts_of_each(&reports[0], &intro_selector))
        } else {
            None
        };
        let all_intros = texts_of_each(&related[0], &intro_selector);
        let id = parse_book_id(book.location.as_str());
        let key = make_directory_key(id.as_str());
        let dir = find_directory(&related[0], &div_selector, key.as_str());
        fill_related_info(book, &report_intros, &all_intros, &dir);
    }
    Ok(())
}

/// The record of the book page `markup` fetched from `book_page_url`: an empty
/// record filled by the title, basic-info, rating and related-info passes.
pub fn parse_book_page(markup: &str, book_page_url: &str) -> (r: Result<Book, PatternError>)
    ensures
        r is Ok <==> book_patterns_ok(),
        r matches Ok(b) ==> b@ == related_pass(
            markup@,
            score_pass(markup@, basic_pass(markup@, title_pass(markup@, empty_book(book_page_url@)))),
        ),
{
    let document = Document::parse(markup);
    let mut book = Book::new(book_page_url);
    match parse_title(&document, &mut book) {
        Ok(()) => {},
        Err(e) => return Err(e),
    }
    match parse_basic_info(&document, &mut book) {
        Ok(()) => {},
        Err(e) => return Err(e),
    }
    match parse_score(&document, &mut book) {
        Ok(()) => {},
        Err(e) => return Err(e),
    }
    match parse_related_info(&document, &mut book) {
        Ok(()) => {},
        Err(e) => return Err(e),
    }
    Ok(book)
}

} // verus!
