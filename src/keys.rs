use vstd::prelude::*;

verus! {

/// The character that separates directory levels in logical names and keys.
pub open spec fn sep() -> char {
    '/'
}

/// `s` ends with the separator.
pub open spec fn ends_with_sep(s: Seq<char>) -> bool {
    s.len() > 0 && s.last() == sep()
}

/// `s` ends with two separators in a row.
pub open spec fn ends_with_two_seps(s: Seq<char>) -> bool {
    s.len() > 1 && s.last() == sep() && s[s.len() - 2] == sep()
}

/// `s` without any separators at its end.
pub open spec fn trim_seps(s: Seq<char>) -> Seq<char>
    decreases s.len(),
{
    if ends_with_sep(s) {
        trim_seps(s.drop_last())
    } else {
        s
    }
}

/// `s` ending with exactly one separator: its trailing separators are
/// replaced by a single one.
pub open spec fn with_one_sep(s: Seq<char>) -> Seq<char> {
    trim_seps(s).push(sep())
}

/// A configured prefix is either empty or ends with exactly one separator.
pub open spec fn is_normal_prefix(p: Seq<char>) -> bool {
    p.len() == 0 || (ends_with_sep(p) && !ends_with_two_seps(p))
}

/// The configured prefix as stored: a non-empty prefix ends with exactly
/// one separator.
pub open spec fn normalize_prefix(p: Seq<char>) -> Seq<char> {
    if p.len() == 0 {
        p
    } else {
        with_one_sep(p)
    }
}

/// The listing prefix for a directory: `None` when prefix and directory are
/// both empty (the whole bucket), else their concatenation ending with
/// exactly one separator.
pub open spec fn prefix_of_dir(p: Seq<char>, d: Seq<char>) -> Option<Seq<char>> {
    let s = p + d;
    if s.len() == 0 {
        None
    } else {
        Some(with_one_sep(s))
    }
}

/// What is left after trimming separators does not end with one, and is
/// an initial part of the original.
pub proof fn lemma_trim_seps(s: Seq<char>)
    ensures
        !ends_with_sep(trim_seps(s)),
        trim_seps(s).len() <= s.len(),
        trim_seps(s) == s.subrange(0, trim_seps(s).len() as int),
    decreases s.len(),
{
    if ends_with_sep(s) {
        lemma_trim_seps(s.drop_last());
        assert(s.drop_last().subrange(0, trim_seps(s).len() as int) =~= s.subrange(
            0,
            trim_seps(s).len() as int,
        ));
    } else {
        assert(s.subrange(0, s.len() as int) =~= s);
    }
}

/// A string ending with one separator after trimming ends with exactly one.
pub proof fn lemma_with_one_sep(s: Seq<char>)
    ensures
        is_normal_prefix(with_one_sep(s)),
        with_one_sep(s).len() > 0,
{
    lemma_trim_seps(s);
    let t = with_one_sep(s);
    assert(t[t.len() - 1] == sep());
    if t.len() > 1 {
        assert(t[t.len() - 2] == trim_seps(s).last());
    }
}

/// The storage key of an object: the prefix followed by the name, verbatim.
pub open spec fn key_of(p: Seq<char>, n: Seq<char>) -> Seq<char> {
    p + n
}

/// `q` is an initial part of `s`.
pub open spec fn starts_with(s: Seq<char>, q: Seq<char>) -> bool {
    q.len() <= s.len() && s.subrange(0, q.len() as int) == q
}

/// The logical name of a listed key: the key with the directory's listing
/// prefix taken off its front, or `None` where the key does not start with
/// that prefix. Without a listing prefix the key is its own name.
pub open spec fn name_of_key(p: Seq<char>, d: Seq<char>, key: Seq<char>) -> Option<Seq<char>> {
    match prefix_of_dir(p, d) {
        None => Some(key),
        Some(q) => if starts_with(key, q) {
            Some(key.subrange(q.len() as int, key.len() as int))
        } else {
            None
        },
    }
}

/// The views of a sequence of strings.
pub open spec fn views(v: Seq<String>) -> Seq<Seq<char>> {
    v.map_values(|s: String| s@)
}

/// The view of an optional string.
pub open spec fn opt_view(o: Option<String>) -> Option<Seq<char>> {
    match o {
        Some(s) => Some(s@),
        None => None,
    }
}

/// The views of a page's keys, where an entry may lack its key.
pub open spec fn key_views(v: Seq<Option<String>>) -> Seq<Option<Seq<char>>> {
    v.map_values(|k: Option<String>| opt_view(k))
}

/// The logical names of one page of listed keys, in the order given. An
/// entry without a key is skipped; a key outside the directory's listing
/// prefix makes the whole page fail (`None`).
pub open spec fn names_of_page(p: Seq<char>, d: Seq<char>, keys: Seq<Option<Seq<char>>>) -> Option<
    Seq<Seq<char>>,
>
    decreases keys.len(),
{
    if keys.len() == 0 {
        Some(Seq::empty())
    } else {
        match names_of_page(p, d, keys.drop_last()) {
            None => None,
            Some(prev) => match keys.last() {
                None => Some(prev),
                Some(k) => match name_of_key(p, d, k) {
                    None => None,
                    Some(n) => Some(prev.push(n)),
                },
            },
        }
    }
}

/// The logical names of a whole listing, page after page in the order the
/// pages came: `None` where any page fails.
pub open spec fn names_of_listing(
    p: Seq<char>,
    d: Seq<char>,
    pages: Seq<Seq<Option<Seq<char>>>>,
) -> Option<Seq<Seq<char>>>
    decreases pages.len(),
{
    if pages.len() == 0 {
        Some(Seq::empty())
    } else {
        match (names_of_listing(p, d, pages.drop_last()), names_of_page(p, d, pages.last())) {
            (Some(a), Some(b)) => Some(a + b),
            _ => None,
        }
    }
}

/// An entry without a key adds nothing to a page's names, wherever it
/// stands; the entries after it still count.
pub proof fn lemma_keyless_entry_skipped(
    p: Seq<char>,
    d: Seq<char>,
    before: Seq<Option<Seq<char>>>,
    after: Seq<Option<Seq<char>>>,
)
    ensures
        names_of_page(p, d, before.push(None) + after) == names_of_page(p, d, before + after),
    decreases after.len(),
{
    if after.len() == 0 {
        assert(before.push(None) + after =~= before.push(None));
        assert(before + after =~= before);
        assert(before.push(None).drop_last() =~= before);
    } else {
        let rest = after.drop_last();
        lemma_keyless_entry_skipped(p, d, before, rest);
        assert((before.push(None) + after).drop_last() =~= before.push(None) + rest);
        assert((before + after).drop_last() =~= before + rest);
    }
}

/// Once an initial part of a page fails, the whole page fails.
pub proof fn lemma_page_failure_stays(
    p: Seq<char>,
    d: Seq<char>,
    keys: Seq<Option<Seq<char>>>,
    i: int,
)
    requires
        0 <= i <= keys.len(),
        names_of_page(p, d, keys.subrange(0, i)) is None,
    ensures
        names_of_page(p, d, keys) is None,
    decreases keys.len() - i,
{
    if i < keys.len() {
        let next = keys.subrange(0, i + 1);
        assert(next.drop_last() =~= keys.subrange(0, i));
        lemma_page_failure_stays(p, d, keys, i + 1);
    } else {
        assert(keys.subrange(0, i) =~= keys);
    }
}

/// The listing prefix of a non-empty configured prefix, or of a non-empty
/// directory, ends with exactly one separator, never two.
pub proof fn lemma_prefix_ends_with_one_sep(p: Seq<char>, d: Seq<char>)
    requires
        p.len() > 0 || d.len() > 0,
    ensures
        prefix_of_dir(p, d) is Some,
        ends_with_sep(prefix_of_dir(p, d)->0),
        !ends_with_two_seps(prefix_of_dir(p, d)->0),
{
    lemma_with_one_sep(p + d);
}

/// A normalized configured prefix is empty or ends with exactly one
/// separator.
pub proof fn lemma_normalized_prefix(p: Seq<char>)
    ensures
        is_normal_prefix(normalize_prefix(p)),
{
    if p.len() > 0 {
        lemma_with_one_sep(p);
    }
}

/// Taking a directory's listing prefix off a key made of that prefix and a
/// suffix gives back the suffix exactly.
pub proof fn lemma_strip_round_trip(p: Seq<char>, d: Seq<char>, suffix: Seq<char>)
    ensures
        name_of_key(
            p,
            d,
            match prefix_of_dir(p, d) {
                Some(q) => q + suffix,
                None => suffix,
            },
        ) == Some(suffix),
{
    if let Some(q) = prefix_of_dir(p, d) {
        let k = q + suffix;
        assert(k.subrange(0, q.len() as int) =~= q);
        assert(k.subrange(q.len() as int, k.len() as int) =~= suffix);
    }
}

/// With an empty configured prefix an object's key is its name.
pub proof fn lemma_key_without_prefix(n: Seq<char>)
    ensures
        key_of(Seq::empty(), n) == n,
{
    assert(Seq::<char>::empty() + n =~= n);
}

/// An object written under `d/n` is listed in directory `d` under the name
/// `n`, where `d` is not empty and does not end with the separator.
pub proof fn lemma_written_object_listed(p: Seq<char>, d: Seq<char>, n: Seq<char>)
    requires
        d.len() > 0,
        !ends_with_sep(d),
    ensures
        name_of_key(p, d, key_of(p, d.push(sep()) + n)) == Some(n),
{
    let s = p + d;
    assert(s.last() == d.last());
    assert(trim_seps(s) == s);
    assert(prefix_of_dir(p, d) == Some(s.push(sep())));
    assert(key_of(p, d.push(sep()) + n) =~= s.push(sep()) + n);
    lemma_strip_round_trip(p, d, n);
}

/// A page that holds the key of an object written under `d/n`, and whose
/// keys all lie in directory `d`, lists `n` among its names.
pub proof fn lemma_written_object_in_page(
    p: Seq<char>,
    d: Seq<char>,
    n: Seq<char>,
    keys: Seq<Option<Seq<char>>>,
)
    requires
        d.len() > 0,
        !ends_with_sep(d),
        keys.contains(Some(key_of(p, d.push(sep()) + n))),
        names_of_page(p, d, keys) is Some,
    ensures
        names_of_page(p, d, keys)->0.contains(n),
    decreases keys.len(),
{
    lemma_written_object_listed(p, d, n);
    let k = Some(key_of(p, d.push(sep()) + n));
    let ns = names_of_page(p, d, keys)->0;
    let prev = names_of_page(p, d, keys.drop_last())->0;
    if keys.last() == k {
        assert(ns == prev.push(n));
        assert(ns[ns.len() - 1] == n);
    } else {
        let i = choose|i: int| 0 <= i < keys.len() && keys[i] == k;
        assert(i < keys.len() - 1);
        assert(keys.drop_last()[i] == k);
        lemma_written_object_in_page(p, d, n, keys.drop_last());
        let j = choose|j: int| 0 <= j < prev.len() && prev[j] == n;
        match keys.last() {
            None => assert(ns[j] == n),
            Some(key) => {
                assert(ns == prev.push(name_of_key(p, d, key)->0));
                assert(ns[j] == n);
            },
        }
    }
}

/// A whole listing of directory `d` that succeeds, and one of whose pages
/// holds the key of an object written under `d/n`, lists `n`.
pub proof fn lemma_written_object_in_listing(
    p: Seq<char>,
    d: Seq<char>,
    n: Seq<char>,
    pages: Seq<Seq<Option<Seq<char>>>>,
    page: int,
)
    requires
        d.len() > 0,
        !ends_with_sep(d),
        0 <= page < pages.len(),
        pages[page].contains(Some(key_of(p, d.push(sep()) + n))),
        names_of_listing(p, d, pages) is Some,
    ensures
        names_of_listing(p, d, pages)->0.contains(n),
    decreases pages.len(),
{
    let all = names_of_listing(p, d, pages)->0;
    let a = names_of_listing(p, d, pages.drop_last())->0;
    let b = names_of_page(p, d, pages.last())->0;
    assert(all == a + b);
    if page == pages.len() - 1 {
        lemma_written_object_in_page(p, d, n, pages.last());
        let j = choose|j: int| 0 <= j < b.len() && b[j] == n;
        assert(all[a.len() + j] == n);
    } else {
        assert(pages.drop_last()[page] == pages[page]);
        lemma_written_object_in_listing(p, d, n, pages.drop_last(), page);
        let j = choose|j: int| 0 <= j < a.len() && a[j] == n;
        assert(all[j] == n);
    }
}

} // verus!
