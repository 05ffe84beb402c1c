//! Ordering of the entries of a listing.

use crate::entry::{ext_of, get_filename_ext, Entry};
use crate::settings::{Settings, SortKey};
use crate::text::{
    compare_lowercase, lemma_lex_cmp_antisymmetric, lemma_lex_cmp_transitive, lex_cmp, lower_of,
};
use std::cmp::Ordering;
use vstd::prelude::*;

verus! {

broadcast use vstd::seq_lib::group_to_multiset_ensures;

/// The name of an entry as it is compared: lowercase.
pub open spec fn name_key(e: Entry) -> Seq<char> {
    lower_of(e.name@)
}

/// The extension of an entry as it is compared: lowercase.
pub open spec fn ext_key(e: Entry) -> Option<Seq<char>> {
    match ext_of(e.name@) {
        Some(x) => Some(lower_of(x)),
        None => None,
    }
}

/// Directories before everything else, then by lowercase name.
pub open spec fn dirs_first_cmp(a: Entry, b: Entry) -> Ordering {
    if a.spec_is_dir() && !b.spec_is_dir() {
        Ordering::Less
    } else if !a.spec_is_dir() && b.spec_is_dir() {
        Ordering::Greater
    } else {
        lex_cmp(name_key(a), name_key(b))
    }
}

/// Directories before everything else; among the rest, by lowercase
/// extension, no extension first, then as `dirs_first_cmp`.
pub open spec fn extension_cmp(a: Entry, b: Entry) -> Ordering {
    if a.spec_is_dir() || b.spec_is_dir() {
        dirs_first_cmp(a, b)
    } else {
        match (ext_key(a), ext_key(b)) {
            (Some(x), Some(y)) => if lex_cmp(x, y) == Ordering::Equal {
                dirs_first_cmp(a, b)
            } else {
                lex_cmp(x, y)
            },
            (Some(_), None) => Ordering::Greater,
            (None, Some(_)) => Ordering::Less,
            (None, None) => dirs_first_cmp(a, b),
        }
    }
}

pub open spec fn size_cmp(a: Entry, b: Entry) -> Ordering {
    if a.size < b.size {
        Ordering::Less
    } else if a.size > b.size {
        Ordering::Greater
    } else {
        Ordering::Equal
    }
}

/// The order that a sort key selects, before any reversal.
pub open spec fn key_cmp(a: Entry, b: Entry, key: SortKey) -> Ordering {
    match key {
        SortKey::Name => dirs_first_cmp(a, b),
        SortKey::Size => size_cmp(a, b),
        SortKey::Time => a.spec_mtime().spec_cmp(b.spec_mtime()),
        SortKey::Extension => extension_cmp(a, b),
    }
}

/// The order of a listing: the key's order, inverted as a whole when
/// reversed.
pub open spec fn entry_cmp(a: Entry, b: Entry, key: SortKey, reverse: bool) -> Ordering {
    if reverse {
        key_cmp(b, a, key)
    } else {
        key_cmp(a, b, key)
    }
}

pub open spec fn entry_le(a: Entry, b: Entry, key: SortKey, reverse: bool) -> bool {
    entry_cmp(a, b, key, reverse) != Ordering::Greater
}

/// `x` inserted into `s` after the last element that does not come after it.
pub open spec fn insert_sorted(x: Entry, s: Seq<Entry>, key: SortKey, reverse: bool) -> Seq<Entry>
    decreases s.len(),
{
    if s.len() == 0 {
        seq![x]
    } else if entry_le(s.last(), x, key, reverse) {
        s.push(x)
    } else {
        insert_sorted(x, s.drop_last(), key, reverse).push(s.last())
    }
}

/// The stable sort of `s`: each element in turn inserted after the elements
/// before it that do not come after it.
pub open spec fn sorted_entries(s: Seq<Entry>, key: SortKey, reverse: bool) -> Seq<Entry>
    decreases s.len(),
{
    if s.len() == 0 {
        s
    } else {
        insert_sorted(s.last(), sorted_entries(s.drop_last(), key, reverse), key, reverse)
    }
}

pub open spec fn is_sorted(s: Seq<Entry>, key: SortKey, reverse: bool) -> bool {
    forall|i: int, j: int| 0 <= i < j < s.len() ==> entry_le(s[i], s[j], key, reverse)
}

/// Compares by the directories-first rule, then by lowercase name.
pub fn sorter_dirs_first(a: &Entry, b: &Entry) -> (r: Ordering)
    ensures
        r == dirs_first_cmp(*a, *b),
{
    if a.is_dir() {
        if b.is_dir() {
            compare_lowercase(a.name.as_str(), b.name.as_str())
        } else {
            Ordering::Less
        }
    } else {
        if b.is_dir() {
            Ordering::Greater
        } else {
            compare_lowercase(a.name.as_str(), b.name.as_str())
        }
    }
}

/// Compares by lowercase extension; directories first, whatever their name.
pub fn sorter_fn_extension(a: &Entry, b: &Entry) -> (r: Ordering)
    ensures
        r == extension_cmp(*a, *b),
{
    if a.is_dir() || b.is_dir() {
        return sorter_dirs_first(a, b);
    }
    match get_filename_ext(a.name.as_str()) {
        Some(a_ext) => match get_filename_ext(b.name.as_str()) {
            Some(b_ext) => {
                let order = compare_lowercase(a_ext.as_str(), b_ext.as_str());
                if let Ordering::Equal = order {
                    sorter_dirs_first(a, b)
                } else {
                    order
                }
            },
            None => Ordering::Greater,
        },
        None => match get_filename_ext(b.name.as_str()) {
            Some(_) => Ordering::Less,
            None => sorter_dirs_first(a, b),
        },
    }
}

fn key_order(a: &Entry, b: &Entry, key: SortKey) -> (r: Ordering)
    ensures
        r == key_cmp(*a, *b, key),
{
    match key {
        SortKey::Name => sorter_dirs_first(a, b),
        SortKey::Size => {
            if a.size < b.size {
                Ordering::Less
            } else if a.size > b.size {
                Ordering::Greater
            } else {
                Ordering::Equal
            }
        },
        SortKey::Time => a.mtime().compare(&b.mtime()),
        SortKey::Extension => sorter_fn_extension(a, b),
    }
}

/// The order of two entries in a listing with these settings.
pub fn entry_order(a: &Entry, b: &Entry, settings: &Settings) -> (r: Ordering)
    ensures
        r == entry_cmp(*a, *b, settings.sort_key, settings.sort_reverse),
{
    if settings.sort_reverse {
        key_order(b, a, settings.sort_key)
    } else {
        key_order(a, b, settings.sort_key)
    }
}

pub open spec fn flip(o: Ordering) -> Ordering {
    match o {
        Ordering::Less => Ordering::Greater,
        Ordering::Equal => Ordering::Equal,
        Ordering::Greater => Ordering::Less,
    }
}

proof fn lemma_lex_cmp_flip(a: Seq<char>, b: Seq<char>)
    ensures
        lex_cmp(b, a) == flip(lex_cmp(a, b)),
{
    lemma_lex_cmp_antisymmetric(a, b);
    lemma_lex_cmp_antisymmetric(b, a);
}

/// Swapping two entries flips their order under every key.
pub proof fn lemma_key_cmp_flip(a: Entry, b: Entry, key: SortKey)
    ensures
        key_cmp(b, a, key) == flip(key_cmp(a, b, key)),
{
    lemma_lex_cmp_flip(name_key(a), name_key(b));
    if ext_key(a) is Some && ext_key(b) is Some {
        lemma_lex_cmp_flip(ext_key(a)->0, ext_key(b)->0);
    }
}

/// Under every key, "does not come after" is transitive.
pub proof fn lemma_key_cmp_transitive(a: Entry, b: Entry, c: Entry, key: SortKey)
    requires
        key_cmp(a, b, key) != Ordering::Greater,
        key_cmp(b, c, key) != Ordering::Greater,
    ensures
        key_cmp(a, c, key) != Ordering::Greater,
{
    lemma_lex_cmp_flip(name_key(a), name_key(b));
    lemma_lex_cmp_flip(name_key(b), name_key(c));
    lemma_lex_cmp_flip(name_key(a), name_key(c));
    if lex_cmp(name_key(a), name_key(b)) != Ordering::Greater && lex_cmp(name_key(b), name_key(c))
        != Ordering::Greater {
        lemma_lex_cmp_transitive(name_key(a), name_key(b), name_key(c));
    }
    if let (Some(x), Some(y), Some(z)) = (ext_key(a), ext_key(b), ext_key(c)) {
        lemma_lex_cmp_flip(x, y);
        lemma_lex_cmp_flip(y, z);
        lemma_lex_cmp_flip(x, z);
        if lex_cmp(x, y) != Ordering::Greater && lex_cmp(y, z) != Ordering::Greater {
            lemma_lex_cmp_transitive(x, y, z);
        }
    }
}

/// The order of a listing is total and transitive.
pub proof fn lemma_entry_le_total_preorder(a: Entry, b: Entry, c: Entry, key: SortKey, reverse: bool)
    ensures
        entry_le(a, b, key, reverse) || entry_le(b, a, key, reverse),
        entry_le(a, b, key, reverse) && entry_le(b, c, key, reverse) ==> entry_le(
            a,
            c,
            key,
            reverse,
        ),
{
    lemma_key_cmp_flip(a, b, key);
    if entry_le(a, b, key, reverse) && entry_le(b, c, key, reverse) {
        if reverse {
            lemma_key_cmp_transitive(c, b, a, key);
        } else {
            lemma_key_cmp_transitive(a, b, c, key);
        }
    }
}

proof fn lemma_insert_sorted_at(x: Entry, s: Seq<Entry>, key: SortKey, reverse: bool, j: int)
    requires
        0 <= j <= s.len(),
        forall|k: int| j <= k < s.len() ==> !entry_le(#[trigger] s[k], x, key, reverse),
        j == 0 || entry_le(s[j - 1], x, key, reverse),
    ensures
        insert_sorted(x, s, key, reverse) == s.take(j).push(x) + s.skip(j),
    decreases s.len(),
{
    if s.len() == 0 {
        assert(s.take(j).push(x) + s.skip(j) =~= seq![x]);
    } else if entry_le(s.last(), x, key, reverse) {
        assert(j == s.len());
        assert(s.take(j).push(x) + s.skip(j) =~= s.push(x));
    } else {
        let t = s.drop_last();
        lemma_insert_sorted_at(x, t, key, reverse, j);
        assert(t.take(j) =~= s.take(j));
        assert((t.take(j).push(x) + t.skip(j)).push(s.last()) =~= s.take(j).push(x) + s.skip(j));
    }
}

proof fn lemma_insert_sorted_props(x: Entry, s: Seq<Entry>, key: SortKey, reverse: bool)
    requires
        is_sorted(s, key, reverse),
    ensures
        is_sorted(insert_sorted(x, s, key, reverse), key, reverse),
        insert_sorted(x, s, key, reverse).to_multiset() == s.to_multiset().insert(x),
    decreases s.len(),
{
    if s.len() == 0 {
        assert(seq![x] =~= Seq::<Entry>::empty().push(x));
    } else if entry_le(s.last(), x, key, reverse) {
        let r = s.push(x);
        assert forall|i: int, j: int| 0 <= i < j < r.len() implies entry_le(
            r[i],
            r[j],
            key,
            reverse,
        ) by {
            if j == s.len() && i < s.len() - 1 {
                lemma_entry_le_total_preorder(s[i], s.last(), x, key, reverse);
            }
        }
    } else {
        let last = s.last();
        let t = s.drop_last();
        assert(is_sorted(t, key, reverse));
        lemma_insert_sorted_props(x, t, key, reverse);
        let u = insert_sorted(x, t, key, reverse);
        lemma_entry_le_total_preorder(x, last, last, key, reverse);
        assert forall|i: int| 0 <= i < u.len() implies entry_le(u[i], last, key, reverse) by {
            assert(u.contains(u[i]));
            assert(u.to_multiset().count(u[i]) > 0);
            if u[i] != x {
                assert(t.to_multiset().count(u[i]) > 0);
                assert(t.contains(u[i]));
                let k = choose|k: int| 0 <= k < t.len() && t[k] == u[i];
                assert(s[k] == t[k]);
            }
        }
        let r = u.push(last);
        assert forall|i: int, j: int| 0 <= i < j < r.len() implies entry_le(
            r[i],
            r[j],
            key,
            reverse,
        ) by {
            if j == u.len() {
                assert(r[i] == u[i]);
            }
        }
        assert(s =~= t.push(last));
    }
}

proof fn lemma_sorted_entries_props(s: Seq<Entry>, key: SortKey, reverse: bool)
    ensures
        is_sorted(sorted_entries(s, key, reverse), key, reverse),
        sorted_entries(s, key, reverse).to_multiset() == s.to_multiset(),
    decreases s.len(),
{
    if s.len() > 0 {
        lemma_sorted_entries_props(s.drop_last(), key, reverse);
        lemma_insert_sorted_props(s.last(), sorted_entries(s.drop_last(), key, reverse), key, reverse);
        assert(s =~= s.drop_last().push(s.last()));
    }
}

/// Sorts the entries in place, stably, in the order that the settings
/// select.
pub fn sort_entries(entries: &mut Vec<Entry>, settings: &Settings)
    ensures
        final(entries)@ == sorted_entries(old(entries)@, settings.sort_key, settings.sort_reverse),
        is_sorted(final(entries)@, settings.sort_key, settings.sort_reverse),
        final(entries)@.to_multiset() == old(entries)@.to_multiset(),
{
    let ghost key = settings.sort_key;
    let ghost rev = settings.sort_reverse;
    let ghost orig = entries@;
    let n = entries.len();
    let mut i: usize = 0;
    assert(orig.take(0) =~= Seq::<Entry>::empty());
    while i < n
        invariant
            i <= n == entries@.len() == orig.len(),
            key == settings.sort_key,
            rev == settings.sort_reverse,
            entries@.take(i as int) == sorted_entries(orig.take(i as int), key, rev),
            entries@.skip(i as int) == orig.skip(i as int),
        decreases n - i,
    {
        let ghost prefix = entries@.take(i as int);
        let ghost x = entries@[i as int];
        assert(x == orig[i as int]) by {
            assert(entries@.skip(i as int)[0] == orig.skip(i as int)[0]);
        }
        let mut j: usize = i;
        while j > 0 && !matches!(entry_order(&entries[j - 1], &entries[i], settings), Ordering::Less | Ordering::Equal)
            invariant
                j <= i < n == entries@.len(),
                key == settings.sort_key,
                rev == settings.sort_reverse,
                prefix == entries@.take(i as int),
                x == entries@[i as int],
                forall|k: int| j <= k < i ==> !entry_le(#[trigger] prefix[k], x, key, rev),
            decreases j,
        {
            j = j - 1;
        }
        proof {
            lemma_insert_sorted_at(x, prefix, key, rev, j as int);
            assert(orig.take(i + 1).drop_last() =~= orig.take(i as int));
        }
        let e = entries.remove(i);
        entries.insert(j, e);
        proof {
            assert(entries@.take(i + 1) =~= prefix.take(j as int).push(x) + prefix.skip(j as int));
            assert(entries@.skip(i + 1) =~= orig.skip(i + 1)) by {
                assert(orig.skip(i as int).drop_first() =~= orig.skip(i + 1));
            }
        }
        i = i + 1;
    }
    proof {
        assert(entries@.take(n as int) =~= entries@);
        assert(orig.take(n as int) =~= orig);
        lemma_sorted_entries_props(orig, key, rev);
    }
}

proof fn lemma_sorted_entries_of_sorted(s: Seq<Entry>, key: SortKey, reverse: bool)
    requires
        is_sorted(s, key, reverse),
    ensures
        sorted_entries(s, key, reverse) == s,
    decreases s.len(),
{
    if s.len() > 0 {
        let t = s.drop_last();
        assert(is_sorted(t, key, reverse));
        lemma_sorted_entries_of_sorted(t, key, reverse);
        if t.len() > 0 {
            assert(t.last() == s[s.len() - 2]);
        } else {
            assert(seq![s.last()] =~= s);
        }
        assert(t.push(s.last()) =~= s);
    }
}

/// Sorting is idempotent: sorting a listing that was sorted with the same
/// key and direction leaves it as it is.
pub proof fn lemma_sort_idempotent(s: Seq<Entry>, key: SortKey, reverse: bool)
    ensures
        sorted_entries(sorted_entries(s, key, reverse), key, reverse) == sorted_entries(
            s,
            key,
            reverse,
        ),
{
    lemma_sorted_entries_props(s, key, reverse);
    lemma_sorted_entries_of_sorted(sorted_entries(s, key, reverse), key, reverse);
}

/// Under the name and the extension order a directory comes before every
/// entry that is not a directory, whatever their names.
pub proof fn lemma_directories_first(a: Entry, b: Entry)
    requires
        a.spec_is_dir(),
        !b.spec_is_dir(),
    ensures
        key_cmp(a, b, SortKey::Name) == Ordering::Less,
        key_cmp(a, b, SortKey::Extension) == Ordering::Less,
        key_cmp(b, a, SortKey::Name) == Ordering::Greater,
        key_cmp(b, a, SortKey::Extension) == Ordering::Greater,
{
}

/// In a listing sorted by name or by extension, no other entry precedes a
/// directory; reversed, no directory precedes another entry.
pub proof fn lemma_sorted_directories_first(s: Seq<Entry>, key: SortKey, reverse: bool)
    requires
        key == SortKey::Name || key == SortKey::Extension,
        is_sorted(s, key, reverse),
    ensures
        !reverse ==> forall|i: int, j: int|
            0 <= i < j < s.len() && s[j].spec_is_dir() ==> s[i].spec_is_dir(),
        reverse ==> forall|i: int, j: int|
            0 <= i < j < s.len() && s[i].spec_is_dir() ==> s[j].spec_is_dir(),
{
    assert forall|i: int, j: int| 0 <= i < j < s.len() implies (s[j].spec_is_dir()
        ==> s[i].spec_is_dir() || reverse) && (s[i].spec_is_dir() ==> s[j].spec_is_dir()
        || !reverse) by {
        assert(entry_le(s[i], s[j], key, reverse));
    }
}

} // verus!
