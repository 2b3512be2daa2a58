//! Which bucket and entry a key of a message belongs to.

use vstd::prelude::*;

verus! {

/// How keys are mapped to buckets.
#[derive(Debug, Clone, Copy, PartialEq, Eq, Structural)]
pub enum ZenohBucketRouting {
    Static,
    KeyPrefix,
}

/// The part of the configuration that the routing looks at.
#[derive(Debug)]
pub struct ZenohApiConfig {
    pub bucket: String,
    pub bucket_routing: ZenohBucketRouting,
}

/// Maps a key expression to a bucket and an entry, for writing and for reading.
#[derive(Debug)]
pub enum BucketRouting {
    /// Everything goes to one bucket; the full key becomes the entry name.
    Static { bucket: String },
    /// The first chunk of the key is the bucket, the rest the entry name. Keys of a single
    /// chunk fall back to the configured bucket.
    KeyPrefix { fallback: String },
}

/// Without leading slashes.
pub open spec fn trim_start(key: Seq<char>) -> Seq<char>
    decreases key.len(),
{
    if key.len() > 0 && key[0] == '/' {
        trim_start(key.skip(1))
    } else {
        key
    }
}

/// Without trailing slashes.
pub open spec fn trim_end(key: Seq<char>) -> Seq<char>
    decreases key.len(),
{
    if key.len() > 0 && key.last() == '/' {
        trim_end(key.drop_last())
    } else {
        key
    }
}

/// Without leading and trailing slashes.
pub open spec fn trimmed(key: Seq<char>) -> Seq<char> {
    trim_end(trim_start(key))
}

/// Where the first slash is.
pub open spec fn first_slash(key: Seq<char>) -> Option<int>
    decreases key.len(),
{
    if key.len() == 0 {
        None
    } else if key[0] == '/' {
        Some(0)
    } else {
        match first_slash(key.skip(1)) {
            Some(i) => Some(i + 1),
            None => None,
        }
    }
}

/// The bucket and the entry of a key, once trimmed: what stands before and behind the first
/// slash, if both are there.
pub open spec fn split_key(key: Seq<char>) -> Option<(Seq<char>, Seq<char>)> {
    match first_slash(key) {
        Some(i) => if i > 0 && i + 1 < key.len() {
            Some((key.take(i), key.skip(i + 1)))
        } else {
            None
        },
        None => None,
    }
}

proof fn lemma_first_slash(key: Seq<char>, i: int)
    requires
        0 <= i <= key.len(),
        forall|j: int| 0 <= j < i ==> key[j] != '/',
    ensures
        i < key.len() && key[i] == '/' ==> first_slash(key) == Some(i),
        i == key.len() ==> first_slash(key) is None,
    decreases key.len(),
{
    if key.len() > 0 && i > 0 {
        assert forall|j: int| 0 <= j < i - 1 implies key.skip(1)[j] != '/' by {
            assert(key.skip(1)[j] == key[j + 1]);
        }
        lemma_first_slash(key.skip(1), i - 1);
    }
}

proof fn lemma_first_slash_holds(key: Seq<char>)
    ensures
        first_slash(key) matches Some(i) ==> 0 <= i < key.len() && key[i] == '/',
    decreases key.len(),
{
    if key.len() > 0 {
        lemma_first_slash_holds(key.skip(1));
    }
}

proof fn lemma_trim_end_prefix(key: Seq<char>)
    ensures
        trim_end(key).len() <= key.len(),
        trim_end(key) == key.take(trim_end(key).len() as int),
        trim_end(key).len() > 0 ==> trim_end(key).last() != '/',
    decreases key.len(),
{
    if key.len() > 0 && key.last() == '/' {
        lemma_trim_end_prefix(key.drop_last());
        let n = trim_end(key).len() as int;
        assert(key.drop_last().take(n) =~= key.take(n));
    } else {
        assert(key.take(key.len() as int) =~= key);
    }
}

proof fn lemma_trim_start_first(key: Seq<char>)
    ensures
        trim_start(key).len() > 0 ==> trim_start(key)[0] != '/',
    decreases key.len(),
{
    if key.len() > 0 && key[0] == '/' {
        lemma_trim_start_first(key.skip(1));
    }
}

/// Where a slash stands in a trimmed key, both the bucket and the entry are there, and together
/// they are the key.
pub proof fn law_key_is_bucket_and_entry(key: Seq<char>)
    ensures
        match split_key(trimmed(key)) {
            Some((bucket, entry)) => {
                &&& bucket.len() > 0
                &&& entry.len() > 0
                &&& bucket + seq!['/'] + entry == trimmed(key)
                &&& first_slash(bucket) is None
            },
            None => first_slash(trimmed(key)) is None,
        },
{
    let k = trimmed(key);
    lemma_first_slash_holds(k);
    lemma_trim_start_first(key);
    lemma_trim_end_prefix(trim_start(key));
    if let Some(i) = first_slash(k) {
        assert(k[0] == trim_start(key)[0]);
        assert(k.take(i) + seq!['/'] + k.skip(i + 1) =~= k);
        lemma_no_slash_before_first(k);
        assert forall|j: int| 0 <= j < i implies k.take(i)[j] != '/' by {
            assert(k[j] != '/');
        }
        lemma_first_slash(k.take(i), i);
    }
}

proof fn lemma_no_slash_before_first(key: Seq<char>)
    ensures
        first_slash(key) matches Some(i) ==> forall|j: int| 0 <= j < i ==> key[j] != '/',
    decreases key.len(),
{
    if key.len() > 0 && key[0] != '/' {
        lemma_no_slash_before_first(key.skip(1));
        lemma_first_slash_holds(key);
        if let Some(i) = first_slash(key) {
            assert forall|j: int| 0 <= j < i implies key[j] != '/' by {
                if j > 0 {
                    assert(key.skip(1)[j - 1] == key[j]);
                }
            }
        }
    }
}

/// Slashes around a key do not matter.
pub proof fn law_outer_slashes_do_not_matter(key: Seq<char>)
    ensures
        trimmed(seq!['/'] + key) == trimmed(key),
        trimmed(key.push('/')) == trimmed(key),
{
    assert((seq!['/'] + key).skip(1) =~= key);
    lemma_trim_start_push(key);
}

proof fn lemma_trim_start_push(key: Seq<char>)
    ensures
        trim_end(trim_start(key.push('/'))) == trim_end(trim_start(key)),
    decreases key.len(),
{
    let longer = key.push('/');
    if key.len() == 0 {
        assert(longer.skip(1) =~= Seq::<char>::empty());
        assert(trim_start(longer) == trim_start(longer.skip(1)));
    } else if key[0] == '/' {
        lemma_trim_start_push(key.skip(1));
        assert(longer.skip(1) =~= key.skip(1).push('/'));
    } else {
        assert(longer.drop_last() =~= key);
    }
}

/// Strips slashes from both ends of a key.
fn trim_slashes(key: &str) -> (r: &str)
    ensures
        r@ == trimmed(key@),
{
    let n: usize = key.unicode_len();
    let mut from: usize = 0;
    assert(key@.skip(0) =~= key@);
    while from < n && key.get_char(from) == '/'
        invariant
            from <= n,
            n == key@.len(),
            trim_start(key@.skip(from as int)) == trim_start(key@),
        decreases n - from,
    {
        assert(key@.skip(from as int).skip(1) =~= key@.skip(from + 1));
        from = from + 1;
    }
    let ghost start = key@.skip(from as int);
    assert(trim_start(key@) == start);
    let mut to: usize = n;
    assert(key@.subrange(from as int, n as int) =~= start);
    while to > from && key.get_char(to - 1) == '/'
        invariant
            from <= to <= n,
            n == key@.len(),
            trim_end(key@.subrange(from as int, to as int)) == trim_end(start),
        decreases to,
    {
        assert(key@.subrange(from as int, to as int).drop_last() =~= key@.subrange(
            from as int,
            to - 1,
        ));
        to = to - 1;
    }
    key.substring_char(from, to)
}

/// Where the first slash is.
fn find_slash(key: &str) -> (r: Option<usize>)
    ensures
        match r {
            Some(i) => first_slash(key@) == Some(i as int) && i < key@.len(),
            None => first_slash(key@) is None,
        },
{
    let n: usize = key.unicode_len();
    let mut i: usize = 0;
    while i < n
        invariant
            i <= n,
            n == key@.len(),
            forall|j: int| 0 <= j < i ==> key@[j] != '/',
        decreases n - i,
    {
        if key.get_char(i) == '/' {
            proof {
                lemma_first_slash(key@, i as int);
            }
            return Some(i);
        }
        i = i + 1;
    }
    proof {
        lemma_first_slash(key@, n as int);
    }
    None
}

/// The bucket and the entry that a routing gives to a key.
pub open spec fn routed(routing: BucketRouting, key: Seq<char>) -> (Seq<char>, Seq<char>) {
    match routing {
        BucketRouting::Static { bucket } => (bucket@, trimmed(key)),
        BucketRouting::KeyPrefix { fallback } => match split_key(trimmed(key)) {
            Some(pair) => pair,
            None => (fallback@, trimmed(key)),
        },
    }
}

/// Whether `bare` is what is left of a key between its outer slashes: all that stands before and
/// behind it are slashes, and it neither begins nor ends with one.
pub open spec fn is_bare(key: Seq<char>, bare: Seq<char>) -> bool {
    &&& exists|from: int, to: int|
        0 <= from <= to <= key.len() && bare == #[trigger] key.subrange(from, to) && (forall|i: int|
            0 <= i < from || to <= i < key.len() ==> #[trigger] key[i] == '/')
    &&& bare.len() > 0 ==> bare[0] != '/' && bare[bare.len() - 1] != '/'
}

/// Whether a bucket and an entry are those of a key under a routing. One bucket takes all keys, or
/// the part before the first slash names the bucket and the rest the entry; a key without a slash
/// inside is an entry of the fallback bucket.
pub open spec fn routes_to(
    routing: BucketRouting,
    key: Seq<char>,
    bucket: Seq<char>,
    entry: Seq<char>,
) -> bool {
    match routing {
        BucketRouting::Static { bucket: only } => bucket == only@ && is_bare(key, entry),
        BucketRouting::KeyPrefix { fallback } => {
            ||| bucket == fallback@ && is_bare(key, entry) && !entry.contains('/')
            ||| bucket.len() > 0 && entry.len() > 0 && !bucket.contains('/') && is_bare(
                key,
                bucket + seq!['/'] + entry,
            )
        },
    }
}

proof fn lemma_trim_start_skips(key: Seq<char>)
    ensures
        trim_start(key).len() <= key.len(),
        trim_start(key) == key.skip(key.len() - trim_start(key).len()),
        forall|i: int| 0 <= i < key.len() - trim_start(key).len() ==> #[trigger] key[i] == '/',
    decreases key.len(),
{
    if key.len() > 0 && key[0] == '/' {
        let rest = key.skip(1);
        lemma_trim_start_skips(rest);
        let n = key.len() - trim_start(key).len();
        assert(rest.skip(n - 1) =~= key.skip(n));
        assert forall|i: int| 0 <= i < n implies #[trigger] key[i] == '/' by {
            if i > 0 {
                assert(rest[i - 1] == key[i]);
            }
        }
    } else {
        assert(key.skip(0) =~= key);
    }
}

proof fn lemma_trim_end_slashes(key: Seq<char>)
    ensures
        forall|i: int| trim_end(key).len() <= i < key.len() ==> #[trigger] key[i] == '/',
    decreases key.len(),
{
    if key.len() > 0 && key.last() == '/' {
        lemma_trim_end_slashes(key.drop_last());
        lemma_trim_end_prefix(key.drop_last());
        assert forall|i: int| trim_end(key).len() <= i < key.len() implies #[trigger] key[i]
            == '/' by {
            if i < key.len() - 1 {
                assert(key.drop_last()[i] == key[i]);
            }
        }
    }
}

/// Trimming a key leaves what stands between its outer slashes.
pub proof fn law_trimmed_key_is_bare(key: Seq<char>)
    ensures
        is_bare(key, trimmed(key)),
{
    let start = trim_start(key);
    let bare = trimmed(key);
    lemma_trim_start_skips(key);
    lemma_trim_start_first(key);
    lemma_trim_end_prefix(start);
    lemma_trim_end_slashes(start);
    let from = key.len() - start.len();
    let to = from + bare.len();
    assert(bare =~= key.subrange(from, to));
    assert forall|i: int| 0 <= i < from || to <= i < key.len() implies #[trigger] key[i] == '/' by {
        if to <= i {
            assert(start[i - from] == key[i]);
        }
    }
    if bare.len() > 0 {
        assert(bare[0] == start[0]);
    }
}

/// Only one text stands between the outer slashes of a key.
pub proof fn law_one_bare_key(key: Seq<char>, a: Seq<char>, b: Seq<char>)
    requires
        is_bare(key, a),
        is_bare(key, b),
    ensures
        a == b,
{
    let (f, t) = choose|f: int, t: int|
        0 <= f <= t <= key.len() && a == #[trigger] key.subrange(f, t) && (forall|i: int|
            0 <= i < f || t <= i < key.len() ==> #[trigger] key[i] == '/');
    let (g, u) = choose|g: int, u: int|
        0 <= g <= u <= key.len() && b == #[trigger] key.subrange(g, u) && (forall|i: int|
            0 <= i < g || u <= i < key.len() ==> #[trigger] key[i] == '/');
    if a.len() > 0 {
        assert(key[f] == a[0] && key[t - 1] == a[a.len() - 1]);
    }
    if b.len() > 0 {
        assert(key[g] == b[0] && key[u - 1] == b[b.len() - 1]);
    }
    assert(a =~= b);
}

/// A key goes to the bucket and the entry that its routing gives it.
pub proof fn law_key_goes_where_it_belongs(routing: BucketRouting, key: Seq<char>)
    ensures
        routes_to(routing, key, routed(routing, key).0, routed(routing, key).1),
{
    let bare = trimmed(key);
    law_trimmed_key_is_bare(key);
    law_key_is_bucket_and_entry(key);
    lemma_first_slash_found(bare);
    if let BucketRouting::KeyPrefix { fallback } = routing {
        if let Some((bucket, entry)) = split_key(bare) {
            lemma_first_slash_found(bucket);
        }
    }
}

proof fn lemma_first_slash_found(key: Seq<char>)
    ensures
        first_slash(key) is Some <==> key.contains('/'),
    decreases key.len(),
{
    lemma_first_slash_holds(key);
    if first_slash(key) is None && key.contains('/') {
        let i = choose|i: int| 0 <= i < key.len() && key[i] == '/';
        assert(key.skip(1)[i - 1] == '/');
        lemma_first_slash_found(key.skip(1));
    }
}

/// One bucket and one entry belong to a key: whatever is said to belong to it is what the routing
/// gives it.
pub proof fn law_one_place_for_a_key(
    routing: BucketRouting,
    key: Seq<char>,
    bucket: Seq<char>,
    entry: Seq<char>,
)
    requires
        routes_to(routing, key, bucket, entry),
    ensures
        (bucket, entry) == routed(routing, key),
{
    law_key_goes_where_it_belongs(routing, key);
    let (b, e) = routed(routing, key);
    match routing {
        BucketRouting::Static { bucket: only } => law_one_bare_key(key, entry, e),
        BucketRouting::KeyPrefix { fallback } => {
            let whole = bucket + seq!['/'] + entry;
            let other = b + seq!['/'] + e;
            if bucket == fallback@ && is_bare(key, entry) && !entry.contains('/') {
                if b == fallback@ && is_bare(key, e) && !e.contains('/') {
                    law_one_bare_key(key, entry, e);
                } else {
                    law_one_bare_key(key, entry, other);
                    assert(other[b.len() as int] == '/');
                }
            } else if b == fallback@ && is_bare(key, e) && !e.contains('/') {
                law_one_bare_key(key, whole, e);
                assert(whole[bucket.len() as int] == '/');
            } else {
                law_one_bare_key(key, whole, other);
                if bucket.len() < b.len() {
                    assert(other[bucket.len() as int] == b[bucket.len() as int]);
                    assert(whole[bucket.len() as int] == '/');
                }
                if b.len() < bucket.len() {
                    assert(whole[b.len() as int] == bucket[b.len() as int]);
                    assert(other[b.len() as int] == '/');
                }
                assert(bucket =~= b) by {
                    assert(whole.take(bucket.len() as int) =~= bucket);
                    assert(other.take(b.len() as int) =~= b);
                }
                assert(entry =~= e) by {
                    assert(whole.skip(bucket.len() + 1int) =~= entry);
                    assert(other.skip(b.len() + 1int) =~= e);
                }
            }
        },
    }
}

/// Keys that differ between their outer slashes never share a place. In one bucket for all keys,
/// they never share an entry; where prefixes name the buckets, a key may share its place only with
/// one that spells out the name of the fallback bucket.
pub proof fn law_different_keys_stay_apart(
    routing: BucketRouting,
    a: Seq<char>,
    b: Seq<char>,
    x: Seq<char>,
    y: Seq<char>,
)
    requires
        is_bare(a, x),
        is_bare(b, y),
        x != y,
    ensures
        routing is Static ==> routed(routing, a).1 != routed(routing, b).1,
        routing matches BucketRouting::KeyPrefix { fallback } ==> routed(routing, a) != routed(
            routing,
            b,
        ) || routed(routing, a).0 == fallback@,
{
    law_key_goes_where_it_belongs(routing, a);
    law_key_goes_where_it_belongs(routing, b);
    let (p, q) = (routed(routing, a), routed(routing, b));
    if routing is Static {
        law_one_bare_key(a, x, p.1);
        law_one_bare_key(b, y, q.1);
    } else if p == q {
        let whole = p.0 + seq!['/'] + p.1;
        if is_bare(a, whole) && is_bare(b, whole) {
            law_one_bare_key(a, x, whole);
            law_one_bare_key(b, y, whole);
        }
    }
}

impl BucketRouting {
    pub fn from_config(config: &ZenohApiConfig) -> (r: BucketRouting)
        ensures
            match config.bucket_routing {
                ZenohBucketRouting::Static => r matches BucketRouting::Static { bucket } && bucket@
                    == config.bucket@,
                ZenohBucketRouting::KeyPrefix => r matches BucketRouting::KeyPrefix { fallback }
                    && fallback@ == config.bucket@,
            },
    {
        match config.bucket_routing {
            ZenohBucketRouting::Static => BucketRouting::Static { bucket: config.bucket.clone() },
            ZenohBucketRouting::KeyPrefix => BucketRouting::KeyPrefix {
                fallback: config.bucket.clone(),
            },
        }
    }

    /// The bucket and the entry of a key. Leading and trailing slashes are stripped from the
    /// key first.
    pub fn resolve<'a>(&'a self, key_expr: &'a str) -> (r: (&'a str, &'a str))
        ensures
            (r.0@, r.1@) == routed(*self, key_expr@),
            routes_to(*self, key_expr@, r.0@, r.1@),
    {
        proof {
            law_key_goes_where_it_belongs(*self, key_expr@);
        }
        let key: &'a str = trim_slashes(key_expr);
        match self {
            BucketRouting::Static { bucket } => (bucket.as_str(), key),
            BucketRouting::KeyPrefix { fallback } => {
                let n: usize = key.unicode_len();
                match find_slash(key) {
                    Some(i) => {
                        if i > 0 && i + 1 < n {
                            let bucket: &'a str = key.substring_char(0, i);
                            let entry: &'a str = key.substring_char(i + 1, n);
                            assert(bucket@ =~= key@.take(i as int));
                            assert(entry@ =~= key@.skip(i + 1));
                            (bucket, entry)
                        } else {
                            (fallback.as_str(), key)
                        }
                    },
                    None => (fallback.as_str(), key),
                }
            },
        }
    }

    /// Whether buckets are created on demand rather than once at the start of a session.
    pub fn is_dynamic(&self) -> (r: bool)
        ensures
            r == (self is KeyPrefix),
    {
        match self {
            BucketRouting::KeyPrefix { fallback: _ } => true,
            BucketRouting::Static { bucket: _ } => false,
        }
    }

    pub fn describe(&self) -> (r: String)
        ensures
            r@ == (match self {
                BucketRouting::Static { bucket } => "bucket='"@ + bucket@ + "'"@,
                BucketRouting::KeyPrefix { fallback } => "bucket=<key prefix> (fallback '"@
                    + fallback@ + "')"@,
            }),
    {
        match self {
            BucketRouting::Static { bucket } => "bucket='".to_owned().concat(
                bucket.as_str(),
            ).concat("'"),
            BucketRouting::KeyPrefix {
                fallback,
            } => "bucket=<key prefix> (fallback '".to_owned().concat(fallback.as_str()).concat("')"),
        }
    }
}

} // verus!
