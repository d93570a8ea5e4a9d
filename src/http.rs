use vstd::prelude::*;
use crate::error::Error;
use crate::text::{compare_keys, key_lt, lemma_key_order, trim_slashes, trim_slashes_text};
use vstd::utf8::{decode_utf8, valid_utf8};

verus! {

/// A key-value pair as its two texts.
pub type PairView = (Seq<char>, Seq<char>);

/// Keys strictly increase in `String` order, so each key occurs once.
pub open spec fn sorted_by_key(s: Seq<PairView>) -> bool {
    forall|i: int, j: int| 0 <= i < j < s.len() ==> key_lt(#[trigger] s[i].0, #[trigger] s[j].0)
}

/// The value stored under `key`, if any.
pub open spec fn lookup(s: Seq<PairView>, key: Seq<char>) -> Option<Seq<char>> {
    if has_key(s, key) {
        Some(s[key_index(s, key)].1)
    } else {
        None
    }
}

pub open spec fn has_key(s: Seq<PairView>, key: Seq<char>) -> bool {
    exists|i: int| 0 <= i < s.len() && #[trigger] s[i].0 == key
}

/// A position of `key` in `s`, when it occurs.
pub open spec fn key_index(s: Seq<PairView>, key: Seq<char>) -> int {
    choose|i: int| 0 <= i < s.len() && #[trigger] s[i].0 == key
}

pub proof fn lemma_lookup_at(s: Seq<PairView>, key: Seq<char>, i: int)
    requires
        sorted_by_key(s),
        0 <= i < s.len(),
        s[i].0 == key,
    ensures
        lookup(s, key) == Some(s[i].1),
{
    assert(has_key(s, key)) by {
        assert(s[i].0 == key);
    }
    let j = key_index(s, key);
    assert(0 <= j < s.len() && s[j].0 == key);
    lemma_key_order(key, key, key);
    if j < i {
        assert(key_lt(s[j].0, s[i].0));
    } else if j > i {
        assert(key_lt(s[i].0, s[j].0));
    }
}

/// Sorted pairs are fixed by what they map each key to: two sorted lists
/// that agree on every lookup are the same list. So the contents of a
/// `Headers` or `Query` do not depend on the order of the calls that set them.
pub proof fn lemma_sorted_pairs_determined(a: Seq<PairView>, b: Seq<PairView>)
    requires
        sorted_by_key(a),
        sorted_by_key(b),
        forall|k: Seq<char>| #[trigger] lookup(a, k) == lookup(b, k),
    ensures
        a == b,
    decreases a.len(),
{
    if a.len() == 0 {
        if b.len() > 0 {
            lemma_lookup_at(b, b[0].0, 0);
            assert(lookup(a, b[0].0) is None);
        }
        assert(a =~= b);
    } else {
        lemma_lookup_at(a, a[0].0, 0);
        assert(lookup(b, a[0].0) is Some);
        assert(b.len() > 0);
        lemma_lookup_at(b, b[0].0, 0);
        let ka = a[0].0;
        let kb = b[0].0;
        let j = key_index(b, ka);
        let i = key_index(a, kb);
        lemma_lookup_at(b, ka, j);
        lemma_lookup_at(a, kb, i);
        lemma_key_order(ka, kb, ka);
        if j > 0 {
            assert(key_lt(kb, ka));
            if i > 0 {
                assert(key_lt(ka, kb));
            }
        }
        assert(j == 0);
        assert(a[0] == b[0]);
        let ta = a.drop_first();
        let tb = b.drop_first();
        assert forall|x: int, y: int| 0 <= x < y < ta.len() implies key_lt(
            #[trigger] ta[x].0,
            #[trigger] ta[y].0,
        ) by {
            assert(ta[x] == a[x + 1] && ta[y] == a[y + 1]);
        }
        assert forall|x: int, y: int| 0 <= x < y < tb.len() implies key_lt(
            #[trigger] tb[x].0,
            #[trigger] tb[y].0,
        ) by {
            assert(tb[x] == b[x + 1] && tb[y] == b[y + 1]);
        }
        assert forall|k: Seq<char>| #[trigger] lookup(ta, k) == lookup(tb, k) by {
            lemma_lookup_tail(a, k);
            lemma_lookup_tail(b, k);
        }
        lemma_sorted_pairs_determined(ta, tb);
        assert(a =~= seq![a[0]] + ta);
        assert(b =~= seq![b[0]] + tb);
    }
}

proof fn lemma_lookup_tail(s: Seq<PairView>, k: Seq<char>)
    requires
        sorted_by_key(s),
        s.len() > 0,
    ensures
        lookup(s.drop_first(), k) == if k == s[0].0 {
            None
        } else {
            lookup(s, k)
        },
{
    let t = s.drop_first();
    assert forall|x: int, y: int| 0 <= x < y < t.len() implies key_lt(
        #[trigger] t[x].0,
        #[trigger] t[y].0,
    ) by {
        assert(t[x] == s[x + 1] && t[y] == s[y + 1]);
    }
    if has_key(t, k) {
        let j = key_index(t, k);
        lemma_lookup_at(t, k, j);
        assert(s[j + 1] == t[j]);
        lemma_lookup_at(s, k, j + 1);
        if k == s[0].0 {
            lemma_key_order(k, k, k);
            assert(key_lt(s[0].0, s[j + 1].0));
        }
    } else if k != s[0].0 {
        assert forall|i: int| 0 <= i < s.len() implies #[trigger] s[i].0 != k by {
            if i > 0 {
                assert(s[i] == t[i - 1]);
            }
        }
    }
}

/// Pairs kept sorted by key, with last-write-wins on a repeated key.
#[derive(Debug)]
pub struct SortedPairs {
    entries: Vec<(String, String)>,
}

impl View for SortedPairs {
    type V = Seq<PairView>;

    closed spec fn view(&self) -> Seq<PairView> {
        pairs_view(self.entries@)
    }
}

/// The texts of stored pairs.
pub open spec fn pairs_view(v: Seq<(String, String)>) -> Seq<PairView> {
    v.map_values(|p: (String, String)| (p.0@, p.1@))
}

impl SortedPairs {
    #[verifier::type_invariant]
    spec fn well_formed(self) -> bool {
        sorted_by_key(self@)
    }

    pub fn new() -> (r: Self)
        ensures
            r@ == Seq::<PairView>::empty(),
    {
        proof { assert(pairs_view(Seq::empty()) =~= Seq::<PairView>::empty()); }
        SortedPairs { entries: Vec::new() }
    }

    /// Where `key` stands or would stand, and whether it is there.
    fn position(&self, key: &str) -> (r: (usize, bool))
        ensures
            r.0 <= self@.len(),
            forall|j: int| 0 <= j < r.0 ==> key_lt(#[trigger] self@[j].0, key@),
            r.1 ==> r.0 < self@.len() && self@[r.0 as int].0 == key@,
            !r.1 ==> r.0 == self@.len() || key_lt(key@, self@[r.0 as int].0),
    {
        let n = self.entries.len();
        let mut i: usize = 0;
        while i < n
            invariant
                n == self.entries.len(),
                self@.len() == n,
                i <= n,
                forall|j: int| 0 <= j < i ==> key_lt(#[trigger] self@[j].0, key@),
            decreases n - i,
        {
            let c = compare_keys(self.entries[i].0.as_str(), key);
            assert(self@[i as int].0 == self.entries@[i as int].0@);
            if c == 0 {
                return (i, true);
            } else if c > 0 {
                return (i, false);
            }
            i = i + 1;
        }
        (n, false)
    }

    /// Copies the entries from `from` up to `to` onto `out`.
    fn copy_range(&self, out: &mut Vec<(String, String)>, from: usize, to: usize)
        requires
            from <= to <= self@.len(),
        ensures
            pairs_view(final(out)@) == pairs_view(old(out)@) + self@.subrange(from as int, to as int),
    {
        let ghost start = pairs_view(out@);
        let mut j = from;
        while j < to
            invariant
                from <= j <= to <= self@.len(),
                self@.len() == self.entries@.len(),
                pairs_view(out@) == start + self@.subrange(from as int, j as int),
            decreases to - j,
        {
            let e = &self.entries[j];
            let ghost prev = out@;
            out.push((e.0.clone(), e.1.clone()));
            proof {
                assert(pairs_view(out@) =~= pairs_view(prev).push(self@[j as int]));
                assert(self@.subrange(from as int, j + 1) =~= self@.subrange(from as int, j as int).push(
                    self@[j as int],
                ));
            }
            j = j + 1;
        }
    }

    /// Sets `key` to `value`, replacing an earlier value of `key`.
    pub fn insert(&mut self, key: &str, value: &str)
        ensures
            sorted_by_key(final(self)@),
            forall|k: Seq<char>| #[trigger] lookup(final(self)@, k) == if k == key@ {
                Some(value@)
            } else {
                lookup(old(self)@, k)
            },
    {
        proof { use_type_invariant(&*self); }
        let ghost before = self@;
        let n = self.entries.len();
        let (p, replace) = self.position(key);
        let mut entries: Vec<(String, String)> = Vec::new();
        proof { assert(pairs_view(entries@) =~= Seq::<PairView>::empty()); }
        self.copy_range(&mut entries, 0, p);
        let ghost head = entries@;
        entries.push((key.to_owned(), value.to_owned()));
        proof { assert(pairs_view(entries@) =~= pairs_view(head).push((key@, value@))); }
        let rest = if replace { p + 1 } else { p };
        self.copy_range(&mut entries, rest, n);
        let ghost after = pairs_view(entries@);
        proof {
            let kv = (key@, value@);
            if replace {
                assert(after =~= before.update(p as int, kv));
                assert forall|a: int, b: int| 0 <= a < b < after.len() implies key_lt(
                    #[trigger] after[a].0,
                    #[trigger] after[b].0,
                ) by {
                    assert(after[a].0 == before[a].0);
                    assert(after[b].0 == before[b].0);
                }
                assert forall|k: Seq<char>| #[trigger] lookup(after, k) == if k == key@ {
                    Some(value@)
                } else {
                    lookup(before, k)
                } by {
                    if k == key@ {
                        lemma_lookup_at(after, k, p as int);
                    } else if has_key(before, k) {
                        let j = key_index(before, k);
                        lemma_lookup_at(before, k, j);
                        assert(after[j] == before[j]);
                        lemma_lookup_at(after, k, j);
                    } else {
                        assert forall|j: int| 0 <= j < after.len() implies #[trigger] after[j].0
                            != k by {
                            if j != p {
                                assert(after[j] == before[j]);
                            }
                        }
                    }
                }
            } else {
                let q = p as int;
                assert(after =~= before.insert(q, kv));
                assert forall|a: int, b: int| 0 <= a < b < after.len() implies key_lt(
                    #[trigger] after[a].0,
                    #[trigger] after[b].0,
                ) by {
                    if a < q && b == q {
                    } else if a < q && b > q {
                        assert(after[b] == before[b - 1]);
                        assert(after[a] == before[a]);
                    } else if a == q {
                        assert(after[b] == before[b - 1]);
                        if b - 1 > q {
                            lemma_key_order(key@, before[q].0, before[b - 1].0);
                        }
                    } else if a > q {
                        assert(after[a] == before[a - 1]);
                        assert(after[b] == before[b - 1]);
                    }
                }
                lemma_insert_lookup(before, after, q, key@, value@);
            }
        }
        *self = SortedPairs { entries };
    }

    /// The value stored under `key`.
    pub fn get(&self, key: &str) -> (r: Option<&str>)
        ensures
            match r {
                Some(v) => lookup(self@, key@) == Some(v@),
                None => lookup(self@, key@) is None,
            },
    {
        proof { use_type_invariant(self); }
        let n = self.entries.len();
        let mut i: usize = 0;
        while i < n
            invariant
                n == self.entries.len(),
                sorted_by_key(self@),
                i <= n,
                forall|j: int| 0 <= j < i ==> #[trigger] self@[j].0 != key@,
            decreases n - i,
        {
            assert(self@[i as int].0 == self.entries@[i as int].0@);
            if compare_keys(self.entries[i].0.as_str(), key) == 0 {
                proof { lemma_lookup_at(self@, key@, i as int); }
                return Some(self.entries[i].1.as_str());
            }
            i = i + 1;
        }
        None
    }

    /// The pairs in key order.
    pub fn pairs(&self) -> (r: Vec<(&str, &str)>)
        ensures
            r@.len() == self@.len(),
            forall|i: int| 0 <= i < r@.len() ==> (#[trigger] r@[i].0@, r@[i].1@) == self@[i],
    {
        let mut out: Vec<(&str, &str)> = Vec::new();
        let n = self.entries.len();
        let mut i: usize = 0;
        while i < n
            invariant
                n == self.entries.len(),
                i <= n,
                out@.len() == i,
                forall|j: int| 0 <= j < i ==> (#[trigger] out@[j].0@, out@[j].1@) == self@[j],
            decreases n - i,
        {
            let e = &self.entries[i];
            out.push((e.0.as_str(), e.1.as_str()));
            i = i + 1;
        }
        out
    }

    /// A copy holding the same pairs.
    pub fn copied(&self) -> (r: Self)
        ensures
            r@ == self@,
    {
        proof { use_type_invariant(self); }
        let mut entries: Vec<(String, String)> = Vec::new();
        let n = self.entries.len();
        let mut i: usize = 0;
        while i < n
            invariant
                n == self.entries.len(),
                i <= n,
                entries@.len() == i,
                forall|j: int| 0 <= j < i ==> (#[trigger] entries@[j].0@, entries@[j].1@) == self@[j],
            decreases n - i,
        {
            let e = &self.entries[i];
            entries.push((e.0.clone(), e.1.clone()));
            i = i + 1;
        }
        proof { assert(pairs_view(entries@) =~= self@); }
        SortedPairs { entries }
    }
}

proof fn lemma_insert_lookup(
    before: Seq<PairView>,
    after: Seq<PairView>,
    p: int,
    key: Seq<char>,
    value: Seq<char>,
)
    requires
        0 <= p <= before.len(),
        after == before.insert(p, (key, value)),
        sorted_by_key(before),
        sorted_by_key(after),
    ensures
        forall|k: Seq<char>| #[trigger] lookup(after, k) == if k == key {
            Some(value)
        } else {
            lookup(before, k)
        },
{
    assert forall|k: Seq<char>| #[trigger] lookup(after, k) == if k == key {
        Some(value)
    } else {
        lookup(before, k)
    } by {
        if k == key {
            lemma_lookup_at(after, k, p);
        } else if has_key(before, k) {
            let j = key_index(before, k);
            lemma_lookup_at(before, k, j);
            if j < p {
                assert(after[j] == before[j]);
                lemma_lookup_at(after, k, j);
            } else {
                assert(after[j + 1] == before[j]);
                lemma_lookup_at(after, k, j + 1);
            }
        } else {
            assert forall|j: int| 0 <= j < after.len() implies #[trigger] after[j].0 != k by {
                if j < p {
                    assert(after[j] == before[j]);
                } else if j > p {
                    assert(after[j] == before[j - 1]);
                }
            }
        }
    }
}

/// The error of `url::Url::parse` and `url::Url::join`, carried through opaque.
#[verifier::external_type_specification]
#[verifier::external_body]
pub struct ExParseError(url::ParseError);

/// What `url::Url::parse` makes of `input`: the serialisation of the URL, or
/// nothing when no absolute URL can be parsed from it.
pub uninterp spec fn url_parsed(input: Seq<char>) -> Option<Seq<char>>;

/// What `url::Url::join` makes of reference `reference` against the URL that
/// serialises to `base`: the serialisation of the result, or nothing.
pub uninterp spec fn url_joined(base: Seq<char>, reference: Seq<char>) -> Option<Seq<char>>;

/// Relies on `url::Url::parse`, and on `String::from(Url)` giving the
/// serialisation.
#[verifier::external_body]
fn parse_url_text(input: &str) -> (r: Result<String, url::ParseError>)
    ensures
        match r {
            Ok(t) => url_parsed(input@) == Some(t@),
            Err(_) => url_parsed(input@) is None,
        },
{
    url::Url::parse(input).map(String::from)
}

/// Relies on `url::Url::join` against `base`. `base` is a serialisation that
/// `url::Url` produced; `url::Url::parse` turns it back into that URL before
/// the join, and fails only where no URL serialises to it.
#[verifier::external_body]
fn join_url_text(base: &str, reference: &str) -> (r: Result<String, url::ParseError>)
    ensures
        match r {
            Ok(t) => url_joined(base@, reference@) == Some(t@),
            Err(_) => url_joined(base@, reference@) is None,
        },
{
    url::Url::parse(base).and_then(|b| b.join(reference)).map(String::from)
}

/// An absolute URL, held as its serialisation.
#[derive(Debug, Clone, PartialEq, Eq)]
pub struct Url {
    text: String,
}

impl View for Url {
    type V = Seq<char>;

    closed spec fn view(&self) -> Seq<char> {
        self.text@
    }
}

impl Url {
    /// Parses an absolute URL.
    pub fn parse(input: &str) -> (r: Result<Url, url::ParseError>)
        ensures
            r is Ok <==> url_parsed(input@) is Some,
            r matches Ok(u) ==> url_parsed(input@) == Some(u@),
    {
        match parse_url_text(input) {
            Ok(text) => Ok(Url { text }),
            Err(e) => Err(e),
        }
    }

    /// Resolves `reference` against this URL.
    pub fn join(&self, reference: &str) -> (r: Result<Url, url::ParseError>)
        ensures
            r is Ok <==> url_joined(self@, reference@) is Some,
            r matches Ok(u) ==> url_joined(self@, reference@) == Some(u@),
    {
        match join_url_text(self.text.as_str(), reference) {
            Ok(text) => Ok(Url { text }),
            Err(e) => Err(e),
        }
    }

    /// The public root of the API, `https://pokeapi.co/`, already in the
    /// form `url::Url` serialises it to.
    pub fn default_base() -> (r: Url)
        ensures
            r@ == "https://pokeapi.co/"@,
    {
        Url { text: "https://pokeapi.co/".to_owned() }
    }

    pub fn as_str(&self) -> (r: &str)
        ensures
            r@ == self@,
    {
        self.text.as_str()
    }

    /// A copy of this URL.
    pub fn copied(&self) -> (r: Url)
        ensures
            r@ == self@,
    {
        Url { text: self.text.clone() }
    }
}

/// What `join_base` gives: the base joined with the trimmed prefix and a
/// final `/`, then with the trimmed path; `None` where a join fails, with
/// `true` when the first one did.
pub open spec fn joined_base(base: Seq<char>, api_prefix: Seq<char>, path: Seq<char>) -> Result<
    Seq<char>,
    bool,
> {
    match url_joined(base, trim_slashes(api_prefix).push('/')) {
        None => Err(true),
        Some(dir) => match url_joined(dir, trim_slashes(path)) {
            None => Err(false),
            Some(full) => Ok(full),
        },
    }
}

/// Joins `base`, the API prefix and a resource path into an absolute URL.
/// Both joins go through `url::Url::join`, so a base with a path of its own
/// keeps it; a base that cannot be a base (such as `mailto:`) is an
/// internal error.
pub fn join_base(base: &Url, api_prefix: &str, path: &str) -> (r: Result<Url, Error>)
    ensures
        match joined_base(base@, api_prefix@, path@) {
            Ok(full) => r matches Ok(u) && u@ == full,
            Err(first) => r matches Err(Error::Internal(m)) && m@ == if first {
                "invalid base url join"@
            } else {
                "invalid path join"@
            },
        },
{
    let mut dir_ref = trim_slashes_text(api_prefix);
    proof { reveal_strlit("/"); }
    dir_ref.append("/");
    assert(dir_ref@ =~= trim_slashes(api_prefix@).push('/'));
    let trimmed_path = trim_slashes_text(path);
    let dir = match base.join(dir_ref.as_str()) {
        Ok(u) => u,
        Err(_) => {
            return Err(Error::Internal("invalid base url join"));
        },
    };
    match dir.join(trimmed_path.as_str()) {
        Ok(u) => Ok(u),
        Err(_) => Err(Error::Internal("invalid path join")),
    }
}

/// HTTP request methods; only `GET` is used.
#[derive(Debug, Clone, Copy, PartialEq, Eq)]
pub enum Method {
    Get,
}

/// Header names to values, sorted by name.
#[derive(Debug)]
pub struct Headers {
    pairs: SortedPairs,
}

impl View for Headers {
    type V = Seq<PairView>;

    closed spec fn view(&self) -> Seq<PairView> {
        self.pairs@
    }
}

impl Headers {
    pub fn new() -> (r: Self)
        ensures
            r@ == Seq::<PairView>::empty(),
    {
        Headers { pairs: SortedPairs::new() }
    }

    /// Sets `key` to `value`, replacing an earlier value of `key`.
    pub fn insert(&mut self, key: &str, value: &str)
        ensures
            sorted_by_key(final(self)@),
            forall|k: Seq<char>| #[trigger] lookup(final(self)@, k) == if k == key@ {
                Some(value@)
            } else {
                lookup(old(self)@, k)
            },
    {
        self.pairs.insert(key, value);
    }

    pub fn get(&self, key: &str) -> (r: Option<&str>)
        ensures
            match r {
                Some(v) => lookup(self@, key@) == Some(v@),
                None => lookup(self@, key@) is None,
            },
    {
        self.pairs.get(key)
    }

    /// The headers in name order.
    pub fn iter(&self) -> (r: Vec<(&str, &str)>)
        ensures
            r@.len() == self@.len(),
            forall|i: int| 0 <= i < r@.len() ==> (#[trigger] r@[i].0@, r@[i].1@) == self@[i],
    {
        self.pairs.pairs()
    }

    pub fn copied(&self) -> (r: Self)
        ensures
            r@ == self@,
    {
        Headers { pairs: self.pairs.copied() }
    }
}

impl Default for Headers {
    fn default() -> (r: Self)
        ensures
            r@ == Seq::<PairView>::empty(),
    {
        Headers::new()
    }
}

/// Query parameters, sorted by key.
#[derive(Debug)]
pub struct Query {
    pairs: SortedPairs,
}

impl View for Query {
    type V = Seq<PairView>;

    closed spec fn view(&self) -> Seq<PairView> {
        self.pairs@
    }
}

impl Query {
    pub fn new() -> (r: Self)
        ensures
            r@ == Seq::<PairView>::empty(),
    {
        Query { pairs: SortedPairs::new() }
    }

    /// Sets `key` to `value`, replacing an earlier value of `key`.
    pub fn set(&mut self, key: &str, value: &str)
        ensures
            sorted_by_key(final(self)@),
            forall|k: Seq<char>| #[trigger] lookup(final(self)@, k) == if k == key@ {
                Some(value@)
            } else {
                lookup(old(self)@, k)
            },
    {
        self.pairs.insert(key, value);
    }

    /// The parameters in key order.
    pub fn iter(&self) -> (r: Vec<(&str, &str)>)
        ensures
            r@.len() == self@.len(),
            forall|i: int| 0 <= i < r@.len() ==> (#[trigger] r@[i].0@, r@[i].1@) == self@[i],
    {
        self.pairs.pairs()
    }
}

impl Default for Query {
    fn default() -> (r: Self)
        ensures
            r@ == Seq::<PairView>::empty(),
    {
        Query::new()
    }
}

/// A request body; `GET` requests carry none.
#[derive(Debug, Clone)]
pub enum Body {
    Empty,
    Bytes(Vec<u8>),
    Json(Vec<u8>),
}

impl Default for Body {
    fn default() -> (r: Self)
        ensures
            r is Empty,
    {
        Body::Empty
    }
}

/// One request, built fresh for each call.
#[derive(Debug)]
pub struct HttpRequest {
    pub method: Method,
    pub url: Url,
    pub headers: Headers,
    pub query: Query,
    pub body: Body,
}

impl HttpRequest {
    /// A request with no headers, no query and no body.
    pub fn new(method: Method, url: Url) -> (r: Self)
        ensures
            r.method == method,
            r.url == url,
            r.headers@ == Seq::<PairView>::empty(),
            r.query@ == Seq::<PairView>::empty(),
            r.body is Empty,
    {
        HttpRequest { method, url, headers: Headers::new(), query: Query::new(), body: Body::Empty }
    }
}

/// What `String::from_utf8_lossy` makes of `bytes`.
pub uninterp spec fn utf8_lossy(bytes: Seq<u8>) -> Seq<char>;

/// Relies on `String::from_utf8_lossy`: each invalid sequence becomes
/// U+FFFD, valid UTF-8 is decoded as it is, and no bytes give no text.
#[verifier::external_body]
fn decode_lossy(bytes: &[u8]) -> (r: String)
    ensures
        r@ == utf8_lossy(bytes@),
        valid_utf8(bytes@) ==> r@ == decode_utf8(bytes@),
        bytes@.len() == 0 ==> r@.len() == 0,
{
    String::from_utf8_lossy(bytes).into_owned()
}

/// A response as the transport returned it.
#[derive(Debug)]
pub struct HttpResponse {
    pub status: u16,
    pub headers: Headers,
    pub body: Vec<u8>,
}

impl HttpResponse {
    /// The body as text, invalid UTF-8 replaced.
    pub fn body_as_str_lossy(&self) -> (r: String)
        ensures
            r@ == utf8_lossy(self.body@),
            valid_utf8(self.body@) ==> r@ == decode_utf8(self.body@),
    {
        decode_lossy(self.body.as_slice())
    }
}

} // verus!
