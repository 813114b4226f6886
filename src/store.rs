//! The set of book identifiers already stored, consulted before each fetch.

use vstd::prelude::*;
use crate::book::{book_id, parse_book_id};
use crate::text::{
    char_views, chars_of, last_nonempty, last_nonempty_of, same_chars, split_chars, split_on,
    string_of, trim_chars, trimmed,
};

verus! {

/// The set after a record is stored under `id`.
pub open spec fn after_put(s: Set<Seq<char>>, id: Seq<char>) -> Set<Seq<char>> {
    s.insert(id)
}

/// Whether storing under `id` is new rather than a duplicate.
pub open spec fn is_new(s: Set<Seq<char>>, id: Seq<char>) -> bool {
    !s.contains(id)
}

/// The identifiers of stored books.
pub struct StoredBookIds {
    ids: Vec<String>,
}

impl View for StoredBookIds {
    type V = Set<Seq<char>>;

    closed spec fn view(&self) -> Set<Seq<char>> {
        Set::new(|x: Seq<char>| exists|i: int| 0 <= i < self.ids@.len() && self.ids@[i]@ == x)
    }
}

impl StoredBookIds {
    /// An empty set.
    pub fn new() -> (r: StoredBookIds)
        ensures
            r@ == Set::<Seq<char>>::empty(),
    {
        let r = StoredBookIds { ids: Vec::new() };
        assert(r@ =~= Set::<Seq<char>>::empty());
        r
    }

    /// Whether `book_id` is in the set.
    pub fn contains(&self, book_id: &str) -> (r: bool)
        ensures
            r == self@.contains(book_id@),
    {
        let key = chars_of(book_id);
        let mut i: usize = 0;
        while i < self.ids.len()
            invariant
                i <= self.ids@.len(),
                key@ == book_id@,
                forall|k: int| 0 <= k < i ==> self.ids@[k]@ != book_id@,
            decreases self.ids@.len() - i,
        {
            if same_chars(&chars_of(self.ids[i].as_str()), &key) {
                assert(self@.contains(book_id@)) by {
                    assert(self.ids@[i as int]@ == book_id@);
                }
                return true;
            }
            i += 1;
        }
        false
    }

    /// Adds `book_id`; returns `false`, with the set unchanged, where it was
    /// already there.
    pub fn add_stored_book_id(&mut self, book_id: &str) -> (added: bool)
        ensures
            final(self)@ == after_put(old(self)@, book_id@),
            added == is_new(old(self)@, book_id@),
    {
        if self.contains(book_id) {
            assert(self@.insert(book_id@) =~= self@);
            return false;
        }
        let ghost before = self@;
        self.ids.push(book_id.to_owned());
        assert(self@ =~= before.insert(book_id@)) by {
            assert(self.ids@[self.ids@.len() - 1]@ == book_id@);
            assert forall|x: Seq<char>| before.contains(x) implies self@.contains(x) by {
                let i = choose|i: int| 0 <= i < old(self).ids@.len() && old(self).ids@[i]@ == x;
                assert(self.ids@[i] == old(self).ids@[i]);
            }
            assert forall|x: Seq<char>| self@.contains(x) implies before.insert(book_id@).contains(
                x,
            ) by {
                let i = choose|i: int| 0 <= i < self.ids@.len() && self.ids@[i]@ == x;
                if i < old(self).ids@.len() {
                    assert(self.ids@[i] == old(self).ids@[i]);
                }
            }
        }
        true
    }

    /// Whether the book at `book_url` is already stored.
    pub fn is_already_store(&self, book_url: &str) -> (r: bool)
        ensures
            r == self@.contains(book_id(book_url@)),
    {
        let id = parse_book_id(book_url);
        self.contains(id.as_str())
    }
}

/// Once a record is stored under an identifier the set holds it; storing again
/// under the same identifier is reported as a duplicate and changes nothing.
pub proof fn lemma_put_then_contains(s: Set<Seq<char>>, id: Seq<char>)
    ensures
        after_put(s, id).contains(id),
        !is_new(after_put(s, id), id),
        after_put(after_put(s, id), id) == after_put(s, id),
{
    assert(after_put(after_put(s, id), id) =~= after_put(s, id));
}

/// The identifier that a stored record's file name carries: the last
/// `_`-separated field that is not blank, trimmed.
pub open spec fn file_id(name: Seq<char>) -> Option<Seq<char>> {
    let id = last_nonempty(split_on(name, '_').map_values(|p: Seq<char>| trimmed(p)));
    if id.len() > 0 {
        Some(id)
    } else {
        None
    }
}

/// Reads the identifier from a stored record's file name.
pub fn book_id_of_file_name(name: &str) -> (r: Option<String>)
    ensures
        match r {
            Some(s) => file_id(name@) == Some(s@),
            None => file_id(name@) is None,
        },
{
    let parts = split_chars(&chars_of(name), '_');
    let mut cleaned: Vec<Vec<char>> = Vec::new();
    let mut i: usize = 0;
    while i < parts.len()
        invariant
            i <= parts@.len(),
            char_views(cleaned@) == char_views(parts@).subrange(0, i as int).map_values(
                |p: Seq<char>| trimmed(p),
            ),
        decreases parts@.len() - i,
    {
        let ghost before = char_views(cleaned@);
        let t = trim_chars(&parts[i]);
        cleaned.push(t);
        assert(char_views(parts@)[i as int] == parts@[i as int]@);
        assert(char_views(cleaned@) =~= before.push(trimmed(parts@[i as int]@)));
        assert(char_views(cleaned@) =~= char_views(parts@).subrange(0, i + 1).map_values(
            |p: Seq<char>| trimmed(p),
        ));
        i += 1;
    }
    assert(char_views(parts@).subrange(0, parts@.len() as int) =~= char_views(parts@));
    let id = last_nonempty_of(&cleaned);
    if id.len() > 0 {
        Some(string_of(&id))
    } else {
        None
    }
}

/// The set of identifiers that a list of stored records' file names carry.
pub open spec fn ids_of_names(names: Seq<Seq<char>>) -> Set<Seq<char>> {
    Set::new(|x: Seq<char>| exists|i: int| 0 <= i < names.len() && file_id(names[i]) == Some(x))
}

/// The set of stored identifiers, read from the file names of the stored records;
/// names that carry none are skipped.
pub fn init(names: &Vec<String>) -> (r: StoredBookIds)
    ensures
        r@ == ids_of_names(char_names(names@)),
{
    let mut r = StoredBookIds::new();
    let ghost all = char_names(names@);
    let mut i: usize = 0;
    assert(r@ =~= ids_of_names(all.subrange(0, 0)));
    while i < names.len()
        invariant
            i <= names@.len(),
            all == char_names(names@),
            r@ == ids_of_names(all.subrange(0, i as int)),
        decreases names@.len() - i,
    {
        let ghost before = r@;
        let ghost pre = all.subrange(0, i + 1);
        assert(pre[i as int] == names@[i as int]@);
        match book_id_of_file_name(names[i].as_str()) {
            Some(id) => {
                r.add_stored_book_id(id.as_str());
                assert(r@ =~= ids_of_names(pre)) by {
                    assert forall|x: Seq<char>| ids_of_names(pre).contains(x) implies r@.contains(
                        x,
                    ) by {
                        let k = choose|k: int| 0 <= k < pre.len() && file_id(pre[k]) == Some(x);
                        if k < i {
                            assert(all.subrange(0, i as int)[k] == pre[k]);
                        }
                    }
                    assert forall|x: Seq<char>| r@.contains(x) implies ids_of_names(pre).contains(
                        x,
                    ) by {
                        if x != id@ {
                            let k = choose|k: int|
                                0 <= k < i && file_id(all.subrange(0, i as int)[k]) == Some(x);
                            assert(pre[k] == all.subrange(0, i as int)[k]);
                        }
                    }
                }
            },
            None => {
                assert(r@ =~= ids_of_names(pre)) by {
                    assert forall|x: Seq<char>| ids_of_names(pre).contains(x) implies r@.contains(
                        x,
                    ) by {
                        let k = choose|k: int| 0 <= k < pre.len() && file_id(pre[k]) == Some(x);
                        assert(k < i);
                        assert(all.subrange(0, i as int)[k] == pre[k]);
                    }
                    assert forall|x: Seq<char>| r@.contains(x) implies ids_of_names(pre).contains(
                        x,
                    ) by {
                        let k = choose|k: int|
                            0 <= k < i && file_id(all.subrange(0, i as int)[k]) == Some(x);
                        assert(pre[k] == all.subrange(0, i as int)[k]);
                    }
                }
            },
        }
        i += 1;
    }
    assert(all.subrange(0, names@.len() as int) =~= all);
    r
}

pub open spec fn char_names(names: Seq<String>) -> Seq<Seq<char>> {
    names.map_values(|s: String| s@)
}

/// The file name of a stored record: its title, `_`, and its identifier.
pub fn record_file_name(title: &str, book_url: &str) -> (r: String)
    ensures
        r@ == title@ + seq!['_'] + book_id(book_url@),
{
    let mut r = String::from_str(title);
    proof {
        reveal_strlit("_");
    }
    r.append("_");
    let id = parse_book_id(book_url);
    r.append(id.as_str());
    r
}

} // verus!
