use vstd::prelude::*;

use crate::error::StorageError;
use crate::keys::{
    is_normal_prefix, key_of, key_views, name_of_key, names_of_listing, names_of_page, normalize_prefix, opt_view,
    prefix_of_dir, starts_with, trim_seps, views, with_one_sep, lemma_normalized_prefix,
    lemma_page_failure_stays,
};

verus! {

/// The rest of `s` after `q` where `s` starts with `q`, and `None` where it
/// does not.
fn strip_front(s: &str, q: &str) -> (r: Option<String>)
    ensures
        match r {
            Some(t) => starts_with(s@, q@) && t@ == s@.subrange(q@.len() as int, s@.len() as int),
            None => !starts_with(s@, q@),
        },
{
    let n = q.unicode_len();
    let m = s.unicode_len();
    if n > m {
        return None;
    }
    let mut i: usize = 0;
    while i < n
        invariant
            n == q@.len(),
            m == s@.len(),
            n <= m,
            i <= n,
            forall|j: int| 0 <= j < i ==> s@[j] == q@[j],
        decreases n - i,
    {
        if s.get_char(i) != q.get_char(i) {
            assert(s@.subrange(0, n as int)[i as int] != q@[i as int]);
            return None;
        }
        i += 1;
    }
    assert(s@.subrange(0, n as int) =~= q@);
    Some(String::from_str(s.substring_char(n, m)))
}

/// `s` with its trailing separators replaced by exactly one.
fn with_one_sep_exec(s: &str) -> (r: String)
    ensures
        r@ == with_one_sep(s@),
{
    let mut n = s.unicode_len();
    assert(s@.subrange(0, n as int) =~= s@);
    while n > 0 && s.get_char(n - 1) == '/'
        invariant
            n <= s@.len(),
            trim_seps(s@.subrange(0, n as int)) == trim_seps(s@),
        decreases n,
    {
        assert(s@.subrange(0, n as int).drop_last() =~= s@.subrange(0, n - 1));
        n -= 1;
    }
    let t = String::from_str(s.substring_char(0, n));
    with_sep(t)
}

/// `s` with the separator added at its end.
fn with_sep(s: String) -> (r: String)
    ensures
        r@ == s@.push('/'),
{
    let mut r = s;
    proof {
        reveal_strlit("/");
    }
    r.append("/");
    assert(r@ =~= s@.push('/'));
    r
}

/// A store of objects in one bucket of a flat object store, every key of
/// which begins with the configured prefix. Directories are key prefixes
/// that end with the separator.
pub struct S3Storage {
    bucket: String,
    prefix: String,
}

impl S3Storage {
    /// The configured prefix is empty or ends with exactly one separator.
    #[verifier::type_invariant]
    spec fn inv(&self) -> bool {
        is_normal_prefix(self.prefix@)
    }

    /// The bucket name.
    pub closed spec fn bucket_view(&self) -> Seq<char> {
        self.bucket@
    }

    /// The configured prefix, as normalized.
    pub closed spec fn prefix_view(&self) -> Seq<char> {
        self.prefix@
    }

    /// A store over `bucket` whose keys begin with `prefix`, to which a
    /// separator is added where it is not empty and lacks one.
    pub fn new(bucket: String, prefix: String) -> (r: S3Storage)
        ensures
            r.bucket_view() == bucket@,
            r.prefix_view() == normalize_prefix(prefix@),
    {
        let ghost given = prefix@;
        let prefix = if prefix.as_str().is_empty() {
            prefix
        } else {
            with_one_sep_exec(prefix.as_str())
        };
        proof {
            lemma_normalized_prefix(given);
        }
        S3Storage { bucket, prefix }
    }

    /// The bucket name.
    pub fn bucket(&self) -> (r: &str)
        ensures
            r@ == self.bucket_view(),
    {
        self.bucket.as_str()
    }

    /// The configured prefix, as normalized.
    pub fn prefix(&self) -> (r: &str)
        ensures
            r@ == self.prefix_view(),
            is_normal_prefix(r@),
    {
        proof {
            use_type_invariant(self);
        }
        self.prefix.as_str()
    }

    /// The listing prefix of the directory `dir_name`: `None` for the whole
    /// bucket, else the configured prefix and the directory name, ending with
    /// exactly one separator.
    pub fn make_prefix(&self, dir_name: &str) -> (r: Option<String>)
        ensures
            opt_view(r) == prefix_of_dir(self.prefix_view(), dir_name@),
    {
        let mut s = self.prefix.clone();
        s.append(dir_name);
        if !s.as_str().is_empty() {
            Some(with_one_sep_exec(s.as_str()))
        } else {
            None
        }
    }

    /// The logical name under `dir_name` of a listed key: the key without the
    /// directory's listing prefix, or `None` where it does not begin with it.
    pub fn strip_prefix(&self, dir_name: &str, key: &str) -> (r: Option<String>)
        ensures
            opt_view(r) == name_of_key(self.prefix_view(), dir_name@, key@),
    {
        match self.make_prefix(dir_name) {
            Some(prefix) => strip_front(key, prefix.as_str()),
            None => Some(String::from_str(key)),
        }
    }

    /// The storage key of the object `obj_name`: the configured prefix
    /// followed by the name, verbatim.
    pub fn make_key(&self, obj_name: &str) -> (r: String)
        ensures
            r@ == key_of(self.prefix_view(), obj_name@),
    {
        let mut s = self.prefix.clone();
        s.append(obj_name);
        s
    }

    /// The logical names of one page of listed keys under `dir_name`, in
    /// order: entries without a key are skipped, and a key outside the
    /// directory fails the page.
    pub fn page_names(&self, dir_name: &str, keys: &Vec<Option<String>>) -> (r: Result<
        Vec<String>,
        StorageError,
    >)
        ensures
            match names_of_page(self.prefix_view(), dir_name@, key_views(keys@)) {
                Some(ns) => r is Ok && views(r->Ok_0@) == ns,
                None => r is Err,
            },
    {
        let ghost p = self.prefix_view();
        let ghost d = dir_name@;
        let mut out: Vec<String> = Vec::new();
        let mut i: usize = 0;
        proof {
            assert(key_views(keys@).subrange(0, 0) =~= Seq::<Option<Seq<char>>>::empty());
            assert(views(out@) =~= Seq::<Seq<char>>::empty());
        }
        while i < keys.len()
            invariant
                i <= keys@.len(),
                p == self.prefix_view(),
                d == dir_name@,
                names_of_page(p, d, key_views(keys@).subrange(0, i as int)) == Some(views(out@)),
            decreases keys@.len() - i,
        {
            let ghost before = out@;
            let ghost upto = key_views(keys@).subrange(0, i as int + 1);
            assert(upto.len() == i + 1);
            assert(upto.drop_last() =~= key_views(keys@).subrange(0, i as int));
            assert(upto.last() == opt_view(keys@[i as int]));
            match &keys[i] {
                Some(k) => {
                    let stripped = self.strip_prefix(dir_name, k.as_str());
                    match stripped {
                        Some(n) => {
                            out.push(n);
                            assert(upto.last() == Some(k@));
                            assert(views(out@) =~= views(before).push(out@.last()@));
                        },
                        None => {
                            proof {
                                assert(upto.last() == Some(k@));
                                assert(names_of_page(p, d, upto) is None);
                                lemma_page_failure_stays(p, d, key_views(keys@), i as int + 1);
                            }
                            return Err(
                                StorageError::with_message(
                                    String::from_str("listed key is outside the directory"),
                                ),
                            );
                        },
                    }
                },
                None => {},
            }
            i += 1;
        }
        assert(key_views(keys@).subrange(0, i as int) =~= key_views(keys@));
        Ok(out)
    }

    /// Begins the listing of `dir_name`: an empty listing, and the request
    /// for its first page.
    pub fn start_list(&self, dir_name: &str) -> (r: (Listing, ListRequest))
        ensures
            r.0.prefix_view() == self.prefix_view(),
            r.0.dir_view() == dir_name@,
            r.0.names_view() == Seq::<Seq<char>>::empty(),
            r.0.pages_view() == Seq::<Seq<Option<Seq<char>>>>::empty(),
            opt_view(r.1.prefix) == prefix_of_dir(self.prefix_view(), dir_name@),
            r.1.continuation_token is None,
    {
        proof {
            use_type_invariant(self);
        }
        let names: Vec<String> = Vec::new();
        assert(views(names@) =~= Seq::<Seq<char>>::empty());
        let listing = Listing {
            storage: S3Storage { bucket: self.bucket.clone(), prefix: self.prefix.clone() },
            dir_name: String::from_str(dir_name),
            names,
            pages: Ghost(Seq::empty()),
        };
        let request = ListRequest { prefix: self.make_prefix(dir_name), continuation_token: None };
        (listing, request)
    }
}

/// One page of a listing as the object store returned it: the keys of its
/// entries, any of which may be missing, and the token for the next page.
pub struct ListPage {
    pub keys: Vec<Option<String>>,
    pub next_token: Option<String>,
}

/// A request for one page of a listing: the key prefix to list under (none
/// for the whole bucket) and the token of the page, none for the first.
pub struct ListRequest {
    pub prefix: Option<String>,
    pub continuation_token: Option<String>,
}

/// What a listing asks for next.
pub enum ListAction {
    /// Fetch this page.
    Fetch(ListRequest),
    /// The listing is complete.
    Done,
    /// The listing failed; what was gathered is to be discarded.
    Fail(StorageError),
}

/// A listing in progress: the names gathered from the pages so far, in
/// page order.
pub struct Listing {
    storage: S3Storage,
    dir_name: String,
    names: Vec<String>,
    pages: Ghost<Seq<Seq<Option<Seq<char>>>>>,
}

impl Listing {
    /// The names gathered are those of the pages taken in so far.
    #[verifier::type_invariant]
    spec fn inv(&self) -> bool {
        names_of_listing(self.storage.prefix@, self.dir_name@, self.pages@) == Some(
            views(self.names@),
        )
    }

    /// The keys of the pages taken in so far, in order.
    pub closed spec fn pages_view(&self) -> Seq<Seq<Option<Seq<char>>>> {
        self.pages@
    }

    /// The configured prefix of the store being listed.
    pub closed spec fn prefix_view(&self) -> Seq<char> {
        self.storage.prefix_view()
    }

    /// The directory being listed.
    pub closed spec fn dir_view(&self) -> Seq<char> {
        self.dir_name@
    }

    /// The names gathered so far.
    pub closed spec fn names_view(&self) -> Seq<Seq<char>> {
        views(self.names@)
    }

    /// Takes in the outcome of the last request: a failed request or page
    /// fails the listing; otherwise the page's names are added in order, and
    /// the next page is asked for while the store hands out a token.
    pub fn step(&mut self, response: Result<ListPage, StorageError>) -> (action: ListAction)
        ensures
            final(self).prefix_view() == old(self).prefix_view(),
            final(self).dir_view() == old(self).dir_view(),
            names_of_listing(final(self).prefix_view(), final(self).dir_view(), final(self).pages_view())
                == Some(final(self).names_view()),
            match response {
                Err(e) => action == ListAction::Fail(e),
                Ok(page) => match names_of_page(
                    old(self).prefix_view(),
                    old(self).dir_view(),
                    key_views(page.keys@),
                ) {
                    None => action is Fail,
                    Some(ns) => final(self).names_view() == old(self).names_view() + ns
                        && final(self).pages_view() == old(self).pages_view().push(
                        key_views(page.keys@),
                    ) && match page.next_token {
                        Some(t) => match action {
                            ListAction::Fetch(req) => opt_view(req.prefix) == prefix_of_dir(
                                old(self).prefix_view(),
                                old(self).dir_view(),
                            ) && req.continuation_token == Some(t),
                            _ => false,
                        },
                        None => action is Done,
                    },
                },
            },
    {
        proof {
            use_type_invariant(&*self);
        }
        match response {
            Err(e) => ListAction::Fail(e),
            Ok(page) => {
                match self.storage.page_names(self.dir_name.as_str(), &page.keys) {
                    Err(e) => ListAction::Fail(e),
                    Ok(found) => {
                        let mut found = found;
                        let ghost before = self.names@;
                        let ghost added = found@;
                        let ghost old_pages = self.pages@;
                        let ghost new_pages = old_pages.push(key_views(page.keys@));
                        assert(new_pages.drop_last() =~= old_pages);
                        let none: Vec<String> = Vec::new();
                        assert(views(none@) =~= Seq::<Seq<char>>::empty());
                        let mut taken = Listing {
                            storage: S3Storage { bucket: String::new(), prefix: String::new() },
                            dir_name: String::new(),
                            names: none,
                            pages: Ghost(Seq::empty()),
                        };
                        core::mem::swap(self, &mut taken);
                        let Listing { storage, dir_name, mut names, pages: _ } = taken;
                        names.append(&mut found);
                        proof {
                            assert(views(names@) =~= views(before) + views(added));
                        }
                        *self = Listing { storage, dir_name, names, pages: Ghost(new_pages) };
                        assert(views(self.names@) =~= views(before) + views(added));
                        match page.next_token {
                            Some(t) => ListAction::Fetch(
                                ListRequest {
                                    prefix: self.storage.make_prefix(self.dir_name.as_str()),
                                    continuation_token: Some(t),
                                },
                            ),
                            None => ListAction::Done,
                        }
                    },
                }
            },
        }
    }

    /// The names gathered, in page order.
    pub fn into_names(self) -> (r: Vec<String>)
        ensures
            views(r@) == self.names_view(),
            names_of_listing(self.prefix_view(), self.dir_view(), self.pages_view()) == Some(
                views(r@),
            ),
    {
        proof {
            use_type_invariant(&self);
        }
        self.names
    }
}

/// The outcome of reading an object, given the body of the store's answer,
/// already drained: an answer without a body is a failure, not an empty
/// object.
pub fn read_outcome(body: Option<Vec<u8>>) -> (r: Result<Vec<u8>, StorageError>)
    ensures
        match body {
            Some(b) => r is Ok && r->Ok_0@ == b@,
            None => r is Err,
        },
{
    match body {
        Some(b) => Ok(b),
        None => Err(StorageError::with_message(String::from_str("no body returned"))),
    }
}

} // verus!
