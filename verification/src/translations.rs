//! Which translation files a component has, and the locales they are for.
//!
//! The files are the entries of the `translations` directory next to the
//! component, given by their file names in the order the directory lists
//! them. A locale is the stem of a `.json` file name.
use vstd::prelude::*;
use vstd::relations::{sorted_by, total_ordering};
use crate::text::{has_suffix, join, owned, same_text};

verus! {

broadcast use vstd::seq_lib::group_seq_properties, vstd::seq_lib::group_to_multiset_ensures,
    vstd::multiset::group_multiset_axioms, vstd::string::group_string_axioms;

// ---------------------------------------------------------------------
// File names.

/// The position of the last `.` among the first `n` characters of `s`, or -1.
pub open spec fn last_dot(s: Seq<char>, n: int) -> int
    decreases n,
{
    if n <= 0 {
        -1
    } else if s[n - 1] == '.' {
        n - 1
    } else {
        last_dot(s, n - 1)
    }
}

/// The extension of a file name: what follows its last `.`, unless the
/// name has no `.`, or its only `.` is its first character, or it is `..`.
pub open spec fn extension(name: Seq<char>) -> Option<Seq<char>> {
    let k = last_dot(name, name.len() as int);
    if name == ".."@ || k <= 0 {
        None
    } else {
        Some(name.subrange(k + 1, name.len() as int))
    }
}

/// The stem of a file name: what precedes its last `.`, or the whole name
/// where it has no extension.
pub open spec fn file_stem(name: Seq<char>) -> Seq<char> {
    let k = last_dot(name, name.len() as int);
    if name == ".."@ || k <= 0 {
        name
    } else {
        name.subrange(0, k)
    }
}

proof fn lemma_last_dot(s: Seq<char>, n: int)
    requires
        0 <= n <= s.len(),
    ensures
        -1 <= last_dot(s, n) < n,
        last_dot(s, n) >= 0 ==> s[last_dot(s, n)] == '.',
        forall|j: int| last_dot(s, n) < j < n ==> s[j] != '.',
    decreases n,
{
    if n > 0 && s[n - 1] != '.' {
        lemma_last_dot(s, n - 1);
    }
}

/// The position of the last `.` in `name`, if any.
fn find_last_dot(name: &str) -> (r: Option<usize>)
    ensures
        match r {
            Some(k) => k == last_dot(name@, name@.len() as int),
            None => last_dot(name@, name@.len() as int) == -1,
        },
{
    let n = name.unicode_len();
    let mut i = n;
    while i > 0
        invariant
            i <= n,
            n == name@.len(),
            last_dot(name@, n as int) == last_dot(name@, i as int),
        decreases i,
    {
        if name.get_char(i - 1) == '.' {
            return Some(i - 1);
        }
        i = i - 1;
    }
    None
}

/// Whether a file name has the extension `json`.
pub fn is_json_file(name: &str) -> (r: bool)
    ensures
        r == (extension(name@) == Some("json"@)),
{
    proof {
        lemma_last_dot(name@, name@.len() as int);
    }
    if same_text(name, "..") {
        return false;
    }
    match find_last_dot(name) {
        None => false,
        Some(k) => {
            if k == 0 {
                false
            } else {
                let n = name.unicode_len();
                same_text(name.substring_char(k + 1, n), "json")
            }
        },
    }
}

/// The stem of a file name, as [`file_stem`] says.
pub fn stem(name: &str) -> (r: String)
    ensures
        r@ == file_stem(name@),
{
    proof {
        lemma_last_dot(name@, name@.len() as int);
    }
    if same_text(name, "..") {
        return owned(name);
    }
    match find_last_dot(name) {
        None => owned(name),
        Some(k) => {
            if k == 0 {
                owned(name)
            } else {
                owned(name.substring_char(0, k))
            }
        },
    }
}

pub open spec fn texts(v: Seq<String>) -> Seq<Seq<char>> {
    v.map_values(|s: String| s@)
}

// ---------------------------------------------------------------------
// Translation files.

/// The names among `names` with the extension `json`, in order.
pub open spec fn json_files(names: Seq<Seq<char>>) -> Seq<Seq<char>>
    decreases names.len(),
{
    if names.len() == 0 {
        seq![]
    } else {
        json_files(names.drop_last()) + if extension(names.last()) == Some("json"@) {
            seq![names.last()]
        } else {
            seq![]
        }
    }
}

/// The translation files of a component, given the entries of its
/// translation directory (`None` where there is no such directory): the
/// `.json` ones, or `None` where there are none.
pub open spec fn translation_files(entries: Option<Seq<Seq<char>>>) -> Option<Seq<Seq<char>>> {
    match entries {
        None => None,
        Some(names) => if json_files(names).len() == 0 {
            None
        } else {
            Some(json_files(names))
        },
    }
}

pub open spec fn opt_texts(o: Option<Vec<String>>) -> Option<Seq<Seq<char>>> {
    match o {
        Some(v) => Some(texts(v@)),
        None => None,
    }
}

/// The translation files among the entries of the translation directory.
pub fn get_translation_file_paths(entries: Option<Vec<String>>) -> (r: Option<Vec<String>>)
    ensures
        opt_texts(r) == translation_files(opt_texts(entries)),
{
    let names = match entries {
        None => {
            return None;
        },
        Some(v) => v,
    };
    let ghost all = texts(names@);
    let mut files: Vec<String> = Vec::new();
    let mut i: usize = 0;
    while i < names.len()
        invariant
            i <= names.len(),
            all == texts(names@),
            texts(files@) == json_files(all.take(i as int)),
        decreases names.len() - i,
    {
        let ghost before = texts(files@);
        if is_json_file(names[i].as_str()) {
            files.push(names[i].clone());
        }
        proof {
            assert(all.take(i + 1).drop_last() =~= all.take(i as int));
            assert(all.take(i + 1).last() == names@[i as int]@);
            assert(texts(files@) =~= json_files(all.take(i + 1)));
        }
        i = i + 1;
    }
    proof {
        assert(all.take(names.len() as int) =~= all);
    }
    if files.len() == 0 {
        None
    } else {
        Some(files)
    }
}

// ---------------------------------------------------------------------
// Ordering of texts.

/// `a` comes before `b` or equals it, character by character (the order of
/// Rust's `String`).
pub open spec fn text_le(a: Seq<char>, b: Seq<char>) -> bool
    decreases a.len(),
{
    if a.len() == 0 {
        true
    } else if b.len() == 0 {
        false
    } else if a[0] != b[0] {
        (a[0] as int) < (b[0] as int)
    } else {
        text_le(a.drop_first(), b.drop_first())
    }
}

proof fn lemma_text_le_total(a: Seq<char>, b: Seq<char>)
    ensures
        text_le(a, b) || text_le(b, a),
    decreases a.len(),
{
    if a.len() > 0 && b.len() > 0 {
        if a[0] == b[0] {
            lemma_text_le_total(a.drop_first(), b.drop_first());
        } else {
            assert((a[0] as int) != (b[0] as int));
        }
    }
}

proof fn lemma_text_le_trans(a: Seq<char>, b: Seq<char>, c: Seq<char>)
    requires
        text_le(a, b),
        text_le(b, c),
    ensures
        text_le(a, c),
    decreases a.len(),
{
    if a.len() > 0 && b.len() > 0 && c.len() > 0 && a[0] == b[0] && b[0] == c[0] {
        lemma_text_le_trans(a.drop_first(), b.drop_first(), c.drop_first());
    }
}

proof fn lemma_text_le_antisym(a: Seq<char>, b: Seq<char>)
    requires
        text_le(a, b),
        text_le(b, a),
    ensures
        a == b,
    decreases a.len(),
{
    if a.len() > 0 && b.len() > 0 {
        lemma_text_le_antisym(a.drop_first(), b.drop_first());
        assert(a =~= seq![a[0]] + a.drop_first());
        assert(b =~= seq![b[0]] + b.drop_first());
    } else {
        assert(a =~= b);
    }
}

/// [`text_le`] is a total order.
pub proof fn lemma_text_order()
    ensures
        total_ordering(|a: Seq<char>, b: Seq<char>| text_le(a, b)),
{
    let r = |a: Seq<char>, b: Seq<char>| text_le(a, b);
    assert forall|a: Seq<char>| #[trigger] r(a, a) by {
        lemma_text_le_total(a, a);
    }
    assert forall|a: Seq<char>, b: Seq<char>| #[trigger] r(a, b) && #[trigger] r(b, a) implies a
        == b by {
        lemma_text_le_antisym(a, b);
    }
    assert forall|a: Seq<char>, b: Seq<char>, c: Seq<char>| #[trigger] r(a, b) && #[trigger] r(
        b,
        c,
    ) implies r(a, c) by {
        lemma_text_le_trans(a, b, c);
    }
    assert forall|a: Seq<char>, b: Seq<char>| #[trigger] r(a, b) || #[trigger] r(b, a) by {
        lemma_text_le_total(a, b);
    }
}

/// Whether `a` comes before `b` or equals it.
pub fn text_le_exec(a: &str, b: &str) -> (r: bool)
    ensures
        r == text_le(a@, b@),
{
    let n = a.unicode_len();
    let m = b.unicode_len();
    let mut i: usize = 0;
    while i < n && i < m
        invariant
            n == a@.len(),
            m == b@.len(),
            i <= n,
            i <= m,
            text_le(a@, b@) == text_le(a@.skip(i as int), b@.skip(i as int)),
        decreases n - i,
    {
        let x = a.get_char(i);
        let y = b.get_char(i);
        proof {
            assert(a@.skip(i as int)[0] == x);
            assert(b@.skip(i as int)[0] == y);
        }
        if x != y {
            return (x as u32) < (y as u32);
        }
        proof {
            assert(a@.skip(i as int).drop_first() =~= a@.skip(i + 1));
            assert(b@.skip(i as int).drop_first() =~= b@.skip(i + 1));
        }
        i = i + 1;
    }
    i == n
}

/// Whether `s` is in ascending order.
pub open spec fn ascending(s: Seq<Seq<char>>) -> bool {
    forall|i: int, j: int| 0 <= i < j < s.len() ==> text_le(#[trigger] s[i], #[trigger] s[j])
}

// ---------------------------------------------------------------------
// Locales.

/// The stems of `files` other than `fallback`, in order.
pub open spec fn other_locales(files: Seq<Seq<char>>, fallback: Seq<char>) -> Seq<Seq<char>>
    decreases files.len(),
{
    if files.len() == 0 {
        seq![]
    } else {
        other_locales(files.drop_last(), fallback) + if file_stem(files.last()) != fallback {
            seq![file_stem(files.last())]
        } else {
            seq![]
        }
    }
}

/// The locales of `files` other than `fallback`, in ascending order.
pub open spec fn locale_ids(files: Seq<Seq<char>>, fallback: Seq<char>) -> Seq<Seq<char>> {
    choose|s: Seq<Seq<char>>|
        ascending(s) && s.to_multiset() == other_locales(files, fallback).to_multiset()
}

/// Inserts `x` into the ascending `v` so that it stays ascending.
fn insert_sorted(v: &mut Vec<String>, x: String)
    requires
        ascending(texts(old(v)@)),
    ensures
        ascending(texts(final(v)@)),
        texts(final(v)@).to_multiset() == texts(old(v)@).to_multiset().insert(x@),
{
    let ghost s0 = texts(v@);
    let mut p: usize = 0;
    while p < v.len() && text_le_exec(v[p].as_str(), x.as_str())
        invariant
            p <= v.len(),
            s0 == texts(v@),
            forall|i: int| 0 <= i < p ==> text_le(#[trigger] s0[i], x@),
        decreases v.len() - p,
    {
        p = p + 1;
    }
    proof {
        if p < v.len() {
            lemma_text_le_total(s0[p as int], x@);
        }
    }
    let ghost xv = x@;
    v.insert(p, x);
    proof {
        let s1 = texts(v@);
        assert(s1 =~= s0.insert(p as int, xv));
        assert forall|k: int| p <= k < s0.len() implies text_le(xv, #[trigger] s0[k]) by {
            if k > p {
                lemma_text_le_trans(xv, s0[p as int], s0[k]);
            }
        }
        assert forall|i: int, j: int| 0 <= i < j < s1.len() implies text_le(
            #[trigger] s1[i],
            #[trigger] s1[j],
        ) by {
            if j < p {
            } else if j == p {
            } else if i < p {
                assert(text_le(xv, s0[j - 1]));
                lemma_text_le_trans(s0[i], xv, s0[j - 1]);
            } else if i == p {
                assert(text_le(xv, s0[j - 1]));
            } else {
            }
        }
    }
}

/// The locales of `translation_files` other than `fallback_locale`, in
/// ascending order.
pub fn get_locale_ids(translation_files: &Vec<String>, fallback_locale: &str) -> (r: Vec<String>)
    ensures
        ascending(texts(r@)),
        texts(r@).to_multiset() == other_locales(texts(translation_files@), fallback_locale@).to_multiset(),
        texts(r@) == locale_ids(texts(translation_files@), fallback_locale@),
{
    let ghost files = texts(translation_files@);
    let mut r: Vec<String> = Vec::new();
    let mut i: usize = 0;
    while i < translation_files.len()
        invariant
            i <= translation_files.len(),
            files == texts(translation_files@),
            ascending(texts(r@)),
            texts(r@).to_multiset() == other_locales(files.take(i as int), fallback_locale@).to_multiset(),
        decreases translation_files.len() - i,
    {
        let locale = stem(translation_files[i].as_str());
        proof {
            assert(files.take(i + 1).drop_last() =~= files.take(i as int));
            assert(files.take(i + 1).last() == translation_files@[i as int]@);
        }
        if !same_text(locale.as_str(), fallback_locale) {
            let ghost lv = locale@;
            insert_sorted(&mut r, locale);
            proof {
                let prev = other_locales(files.take(i as int), fallback_locale@);
                assert(other_locales(files.take(i + 1), fallback_locale@) =~= prev.push(lv));
            }
        } else {
            proof {
                assert(other_locales(files.take(i + 1), fallback_locale@) =~= other_locales(
                    files.take(i as int),
                    fallback_locale@,
                ));
            }
        }
        i = i + 1;
    }
    proof {
        assert(files.take(translation_files.len() as int) =~= files);
        let w = texts(r@);
        let c = locale_ids(files, fallback_locale@);
        assert(ascending(w) && w.to_multiset() == other_locales(files, fallback_locale@).to_multiset());
        law_locale_order_unique(w, c);
    }
    r
}

/// The identifier that the fallback translations are imported as: `_` and the locale.
pub fn get_locale_id(fallback_locale: &str) -> (r: String)
    ensures
        r@ == seq!['_'] + fallback_locale@,
{
    let r = join("_", fallback_locale);
    proof {
        reveal_strlit("_");
    }
    r
}

/// The locale ids are the one ascending order of the locales: any
/// ascending sequence with the same locales is that sequence.
pub proof fn law_locale_order_unique(a: Seq<Seq<char>>, b: Seq<Seq<char>>)
    requires
        ascending(a),
        ascending(b),
        a.to_multiset() == b.to_multiset(),
    ensures
        a == b,
{
    let leq = |x: Seq<char>, y: Seq<char>| text_le(x, y);
    lemma_text_order();
    assert(sorted_by(a, leq));
    assert(sorted_by(b, leq));
    vstd::seq_lib::lemma_sorted_unique(a, b, leq);
}

// ---------------------------------------------------------------------
// Which entries are translation files.

/// Whether `name` names a JSON file: `.json` after at least one character.
pub open spec fn is_json_name(name: Seq<char>) -> bool {
    name.len() > 5 && has_suffix(name, seq!['.', 'j', 's', 'o', 'n'])
}

proof fn lemma_json_extension(x: Seq<char>)
    ensures
        (extension(x) == Some("json"@)) == is_json_name(x),
{
    reveal_strlit("json");
    reveal_strlit("..");
    let n = x.len() as int;
    lemma_last_dot(x, n);
    let k = last_dot(x, n);
    let suffix = seq!['.', 'j', 's', 'o', 'n'];
    if extension(x) == Some("json"@) {
        assert(x.subrange(k + 1, n) =~= "json"@);
        assert(k == n - 5);
        assert(x.subrange(n - 5, n) =~= suffix) by {
            assert forall|i: int| 0 <= i < 5 implies x.subrange(n - 5, n)[i] == suffix[i] by {
                if i > 0 {
                    assert(x.subrange(n - 5, n)[i] == x.subrange(k + 1, n)[i - 1]);
                }
            }
        }
    }
    if is_json_name(x) {
        assert(x.subrange(n - 5, n) == suffix);
        assert(x[n - 5] == x.subrange(n - 5, n)[0]);
        assert forall|j: int| n - 5 < j < n implies x[j] != '.' by {
            assert(x[j] == x.subrange(n - 5, n)[j - (n - 5)]);
        }
        assert(k == n - 5);
        assert(x != ".."@);
        assert(x.subrange(k + 1, n) =~= "json"@) by {
            assert forall|i: int| 0 <= i < 4 implies x.subrange(k + 1, n)[i] == "json"@[i] by {
                assert(x.subrange(k + 1, n)[i] == x.subrange(n - 5, n)[i + 1]);
            }
        }
    }
}

/// The translation files among directory entries are exactly the entries
/// whose names end in `.json` after at least one character, each once, in
/// the order of the entries, whatever other characters they hold.
pub proof fn law_json_files_are_the_json_entries(names: Seq<Seq<char>>)
    ensures
        json_files(names) == names.filter(|x: Seq<char>| is_json_name(x)),
    decreases names.len(),
{
    reveal(Seq::filter);
    if names.len() > 0 {
        law_json_files_are_the_json_entries(names.drop_last());
        lemma_json_extension(names.last());
        let rest = json_files(names.drop_last());
        if is_json_name(names.last()) {
            assert(rest + seq![names.last()] =~= rest.push(names.last()));
        } else {
            assert(rest + Seq::<Seq<char>>::empty() =~= rest);
        }
    }
}

/// The locales other than the fallback are the stems of the translation
/// files, in the order of the files, leaving out every one that is the
/// fallback locale and no other.
pub proof fn law_other_locales_are_the_other_stems(files: Seq<Seq<char>>, fallback: Seq<char>)
    ensures
        other_locales(files, fallback) == files.map_values(|f: Seq<char>| file_stem(f)).filter(
            |l: Seq<char>| l != fallback,
        ),
    decreases files.len(),
{
    reveal(Seq::filter);
    if files.len() > 0 {
        law_other_locales_are_the_other_stems(files.drop_last(), fallback);
        let stems = files.map_values(|f: Seq<char>| file_stem(f));
        assert(stems.drop_last() =~= files.drop_last().map_values(|f: Seq<char>| file_stem(f)));
        assert(stems.last() == file_stem(files.last()));
        let rest = other_locales(files.drop_last(), fallback);
        if file_stem(files.last()) != fallback {
            assert(rest + seq![file_stem(files.last())] =~= rest.push(file_stem(files.last())));
        } else {
            assert(rest + Seq::<Seq<char>>::empty() =~= rest);
        }
    }
}

} // verus!
