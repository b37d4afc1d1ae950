use vstd::prelude::*;
use vstd::string::StringExecFns;
use vstd::utf8::*;

verus! {

broadcast use vstd::utf8::group_utf8_lib;

/// The outside type `std::str::Utf8Error`, declared so that it can be carried; Verus sees nothing inside it.
#[verifier::external_type_specification]
#[verifier::external_body]
pub struct ExUtf8Error(std::str::Utf8Error);

/// The outside type `url::ParseError`, declared so that it can be carried; Verus sees nothing inside it.
#[verifier::external_type_specification]
#[verifier::external_body]
pub struct ExUrlParseError(url::ParseError);

/// The value of an ASCII hexadecimal digit (either case), if `b` is one.
pub open spec fn hex_digit(b: u8) -> Option<u8> {
    if 48 <= b <= 57 {
        Some((b - 48) as u8)
    } else if 97 <= b <= 102 {
        Some((b - 87) as u8)
    } else if 65 <= b <= 70 {
        Some((b - 55) as u8)
    } else {
        None
    }
}

/// Percent-decoding: `%` followed by two hexadecimal digits stands for the byte
/// they spell; every other byte, a `%` without two digits after it included,
/// stands for itself.
pub open spec fn percent_decoded(input: Seq<u8>) -> Seq<u8>
    decreases input.len(),
{
    if input.len() == 0 {
        Seq::empty()
    } else if input[0] == 37 && input.len() >= 3 && hex_digit(input[1]) is Some && hex_digit(
        input[2],
    ) is Some {
        seq![(hex_digit(input[1])->0 * 16 + hex_digit(input[2])->0) as u8] + percent_decoded(
            input.subrange(3, input.len() as int),
        )
    } else {
        seq![input[0]] + percent_decoded(input.subrange(1, input.len() as int))
    }
}

/// The `(name, value)` pairs, in order, of the query of the URL that
/// `url::Url::parse` makes of `input`, as `url::Url::query_pairs` decodes them;
/// `None` where `url::Url::parse` refuses `input`.
pub uninterp spec fn url_query_pairs(input: Seq<char>) -> Option<Seq<(Seq<char>, Seq<char>)>>;

/// Calls `url::percent_encoding::percent_decode` on `input`, then
/// `PercentDecode::decode_utf8`. Claimed: the bytes decoded are those of
/// `percent_decoded` (the crate's source decodes `%` and two hex digits, and
/// keeps every other byte); the result is `Ok` exactly when they are well-formed
/// UTF-8, and is then the text they encode.
#[verifier::external_body]
fn decode_percent_utf8(input: &[u8]) -> (r: Result<String, std::str::Utf8Error>)
    ensures
        r is Ok <==> valid_utf8(percent_decoded(input@)),
        r matches Ok(s) ==> s@ == decode_utf8(percent_decoded(input@)),
{
    url::percent_encoding::percent_decode(input).decode_utf8().map(|s| s.into_owned())
}

/// Calls `url::Url::parse` on `input` and, on success, collects
/// `Url::query_pairs` as owned strings. Claimed: success and the pairs are those
/// that the name `url_query_pairs` gives for `input`.
#[verifier::external_body]
fn parse_query_pairs(input: &str) -> (r: Result<Vec<(String, String)>, url::ParseError>)
    ensures
        r is Ok <==> url_query_pairs(input@) is Some,
        r matches Ok(pairs) ==> url_query_pairs(input@) == Some(pair_views(pairs@)),
{
    url::Url::parse(input).map(|u| u.query_pairs().into_owned().collect())
}

/// The text of each `(name, value)` pair.
pub open spec fn pair_views(pairs: Seq<(String, String)>) -> Seq<(Seq<char>, Seq<char>)> {
    pairs.map_values(|p: (String, String)| (p.0@, p.1@))
}

/// The values paired with `key`, in the order in which they occur.
pub open spec fn values_for(pairs: Seq<(Seq<char>, Seq<char>)>, key: Seq<char>) -> Seq<Seq<char>>
    decreases pairs.len(),
{
    if pairs.len() == 0 {
        Seq::empty()
    } else {
        let rest = values_for(pairs.drop_last(), key);
        if pairs.last().0 == key {
            rest.push(pairs.last().1)
        } else {
            rest
        }
    }
}

proof fn lemma_values_for_prepend(
    p: (Seq<char>, Seq<char>),
    rest: Seq<(Seq<char>, Seq<char>)>,
    key: Seq<char>,
)
    ensures
        values_for(seq![p] + rest, key) == (if p.0 == key {
            seq![p.1]
        } else {
            Seq::empty()
        }) + values_for(rest, key),
    decreases rest.len(),
{
    let all = seq![p] + rest;
    let head: Seq<Seq<char>> = if p.0 == key {
        seq![p.1]
    } else {
        Seq::empty()
    };
    if rest.len() == 0 {
        assert(all.drop_last() =~= Seq::<(Seq<char>, Seq<char>)>::empty());
        assert(all.last() == p);
        assert(values_for(all.drop_last(), key) =~= Seq::<Seq<char>>::empty());
        assert(values_for(rest, key) =~= Seq::<Seq<char>>::empty());
        assert(values_for(all, key) =~= head + values_for(rest, key));
    } else {
        lemma_values_for_prepend(p, rest.drop_last(), key);
        assert(all.drop_last() =~= seq![p] + rest.drop_last());
        assert(all.last() == rest.last());
        let mid = values_for(rest.drop_last(), key);
        if rest.last().0 == key {
            assert((head + mid).push(rest.last().1) =~= head + mid.push(rest.last().1));
        }
        assert(values_for(all, key) =~= head + values_for(rest, key));
    }
}

proof fn lemma_values_for_take(pairs: Seq<(Seq<char>, Seq<char>)>, n: int, key: Seq<char>)
    requires
        0 <= n < pairs.len(),
    ensures
        values_for(pairs.take(n + 1), key) == if pairs[n].0 == key {
            values_for(pairs.take(n), key).push(pairs[n].1)
        } else {
            values_for(pairs.take(n), key)
        },
{
    assert(pairs.take(n + 1).drop_last() =~= pairs.take(n));
    assert(pairs.take(n + 1).last() == pairs[n]);
}

/// Why a query string could not be read.
#[derive(Debug)]
pub enum UrlParseError {
    Url(url::ParseError),
    Utf8(std::str::Utf8Error),
}

/// The bytes that percent-decoding the text `uri` gives.
pub open spec fn decoded_uri_bytes(uri: Seq<char>) -> Seq<u8> {
    percent_decoded(encode_utf8(uri))
}

/// The absolute URL whose query `QueryString::from_uri` reads: the decoded
/// request target appended to `http://localhost`.
pub open spec fn localhost_url(uri: Seq<char>) -> Seq<char> {
    "http://localhost"@ + decode_utf8(decoded_uri_bytes(uri))
}

/// No byte of `s` is a `%`.
spec fn no_percent_byte(s: Seq<u8>) -> bool {
    forall|i: int| 0 <= i < s.len() ==> s[i] != 37
}

/// Bytes in which no `%` occurs are left as they are by percent-decoding.
proof fn lemma_percent_decoded_plain(s: Seq<u8>)
    requires
        no_percent_byte(s),
    ensures
        percent_decoded(s) == s,
    decreases s.len(),
{
    if s.len() > 0 {
        let rest = s.subrange(1, s.len() as int);
        assert(no_percent_byte(rest)) by {
            assert forall|i: int| 0 <= i < rest.len() implies rest[i] != 37 by {
                assert(rest[i] == s[i + 1]);
            }
        }
        lemma_percent_decoded_plain(rest);
        assert(s =~= seq![s[0]] + rest);
    }
}

/// Percent-decoding goes through a stretch without `%` unchanged.
proof fn lemma_percent_decoded_plain_prefix(x: Seq<u8>, y: Seq<u8>)
    requires
        no_percent_byte(x),
    ensures
        percent_decoded(x + y) == x + percent_decoded(y),
    decreases x.len(),
{
    if x.len() > 0 {
        let xs = x.subrange(1, x.len() as int);
        assert(no_percent_byte(xs)) by {
            assert forall|i: int| 0 <= i < xs.len() implies xs[i] != 37 by {
                assert(xs[i] == x[i + 1]);
            }
        }
        assert((x + y)[0] == x[0]);
        assert((x + y).subrange(1, (x + y).len() as int) =~= xs + y);
        lemma_percent_decoded_plain_prefix(xs, y);
        assert(x =~= seq![x[0]] + xs);
    } else {
        assert(x + y =~= y);
    }
}

/// The UTF-8 encoding of a character other than `%` holds no `%` byte.
proof fn lemma_encode_scalar_no_percent(c: char)
    requires
        c != '%',
    ensures
        no_percent_byte(encode_scalar(c as u32)),
{
    let v = c as u32;
    assert(is_scalar(v));
    if has_width_1_encoding(v) {
        assert(v != 37);
        assert(leading_byte_width_1(v) == v) by (bit_vector)
            requires
                v <= 0x7f,
        ;
    } else {
        assert(forall|x: u8| #![trigger (0x80u8 | x)] (0x80u8 | x) != 37u8) by (bit_vector);
        assert(forall|x: u8| #![trigger (0xC0u8 | x)] (0xC0u8 | x) != 37u8) by (bit_vector);
        assert(forall|x: u8| #![trigger (0xE0u8 | x)] (0xE0u8 | x) != 37u8) by (bit_vector);
        assert(forall|x: u8| #![trigger (0xF0u8 | x)] (0xF0u8 | x) != 37u8) by (bit_vector);
    }
}

/// The UTF-8 encoding of a text without `%` holds no `%` byte.
proof fn lemma_encode_utf8_no_percent(chars: Seq<char>)
    requires
        forall|i: int| 0 <= i < chars.len() ==> chars[i] != '%',
    ensures
        no_percent_byte(encode_utf8(chars)),
    decreases chars.len(),
{
    if chars.len() > 0 {
        lemma_encode_scalar_no_percent(chars[0]);
        let rest = chars.drop_first();
        assert forall|i: int| 0 <= i < rest.len() implies rest[i] != '%' by {
            assert(rest[i] == chars[i + 1]);
        }
        lemma_encode_utf8_no_percent(rest);
        let e = encode_utf8(chars);
        let h = encode_scalar(chars[0] as u32);
        assert(e == h + encode_utf8(rest));
        assert forall|i: int| 0 <= i < e.len() implies e[i] != 37 by {
            if i < h.len() {
                assert(e[i] == h[i]);
            } else {
                assert(e[i] == encode_utf8(rest)[i - h.len()]);
            }
        }
    }
}

/// UTF-8 encoding of joined texts joins their encodings.
proof fn lemma_encode_utf8_concat(a: Seq<char>, b: Seq<char>)
    ensures
        encode_utf8(a + b) == encode_utf8(a) + encode_utf8(b),
    decreases a.len(),
{
    if a.len() == 0 {
        assert(a + b =~= b);
    } else {
        assert((a + b)[0] == a[0]);
        assert((a + b).drop_first() =~= a.drop_first() + b);
        lemma_encode_utf8_concat(a.drop_first(), b);
    }
}

/// No `%` among the last two bytes of `x`.
spec fn no_percent_at_end(x: Seq<u8>) -> bool {
    forall|i: int| 0 <= i < x.len() && x.len() - 2 <= i ==> x[i] != 37
}

/// Percent-decoding splits where no escape is cut in two.
proof fn lemma_percent_decoded_split(x: Seq<u8>, y: Seq<u8>)
    requires
        no_percent_at_end(x),
    ensures
        percent_decoded(x + y) == percent_decoded(x) + percent_decoded(y),
    decreases x.len(),
{
    if x.len() == 0 {
        assert(x + y =~= y);
        assert(percent_decoded(x) =~= Seq::<u8>::empty());
        assert(percent_decoded(y) =~= Seq::<u8>::empty() + percent_decoded(y));
    } else {
        let xy = x + y;
        assert(xy[0] == x[0]);
        if x[0] == 37 {
            assert(x.len() >= 3);
            assert(xy[1] == x[1] && xy[2] == x[2]);
            if hex_digit(x[1]) is Some && hex_digit(x[2]) is Some {
                let xs = x.subrange(3, x.len() as int);
                assert(no_percent_at_end(xs)) by {
                    assert forall|i: int| 0 <= i < xs.len() && xs.len() - 2 <= i implies xs[i] != 37 by {
                        assert(xs[i] == x[i + 3]);
                    }
                }
                assert(xy.subrange(3, xy.len() as int) =~= xs + y);
                lemma_percent_decoded_split(xs, y);
                let d = seq![(hex_digit(x[1])->0 * 16 + hex_digit(x[2])->0) as u8];
                assert(d + (percent_decoded(xs) + percent_decoded(y)) =~= (d + percent_decoded(xs))
                    + percent_decoded(y));
            } else {
                let xs = x.subrange(1, x.len() as int);
                assert(no_percent_at_end(xs)) by {
                    assert forall|i: int| 0 <= i < xs.len() && xs.len() - 2 <= i implies xs[i] != 37 by {
                        assert(xs[i] == x[i + 1]);
                    }
                }
                assert(xy.subrange(1, xy.len() as int) =~= xs + y);
                lemma_percent_decoded_split(xs, y);
                let d = seq![x[0]];
                assert(d + (percent_decoded(xs) + percent_decoded(y)) =~= (d + percent_decoded(xs))
                    + percent_decoded(y));
            }
        } else {
            let xs = x.subrange(1, x.len() as int);
            assert(no_percent_at_end(xs)) by {
                assert forall|i: int| 0 <= i < xs.len() && xs.len() - 2 <= i implies xs[i] != 37 by {
                    assert(xs[i] == x[i + 1]);
                }
            }
            assert(xy.subrange(1, xy.len() as int) =~= xs + y);
            lemma_percent_decoded_split(xs, y);
            let d = seq![x[0]];
            assert(d + (percent_decoded(xs) + percent_decoded(y)) =~= (d + percent_decoded(xs))
                + percent_decoded(y));
        }
    }
}

/// The UTF-8 bytes of a text whose last two characters are not `%` do not
/// end with a `%` among their last two.
proof fn lemma_encode_utf8_no_percent_at_end(u: Seq<char>)
    requires
        forall|i: int| 0 <= i < u.len() && u.len() - 2 <= i ==> u[i] != '%',
    ensures
        no_percent_at_end(encode_utf8(u)),
{
    if u.len() > 0 {
        let n = u.len();
        let lastc = u[n - 1];
        let front = u.drop_last();
        assert(u =~= front + seq![lastc]);
        lemma_encode_utf8_concat(front, seq![lastc]);
        assert(seq![lastc].drop_first() =~= Seq::<char>::empty());
        assert(seq![lastc][0] == lastc);
        assert(encode_utf8(Seq::<char>::empty()) =~= Seq::<u8>::empty());
        assert(encode_utf8(seq![lastc]) == encode_scalar(lastc as u32) + encode_utf8(seq![lastc].drop_first()));
        assert(encode_utf8(seq![lastc]) =~= encode_scalar(lastc as u32));
        lemma_encode_scalar_no_percent(lastc);
        let ef = encode_utf8(front);
        let el = encode_scalar(lastc as u32);
        let e = encode_utf8(u);
        assert(e == ef + el);
        assert(el.len() >= 1);
        if n >= 2 {
            let prevc = front[n - 2];
            let ff = front.drop_last();
            assert(front =~= ff + seq![prevc]);
            lemma_encode_utf8_concat(ff, seq![prevc]);
            assert(seq![prevc].drop_first() =~= Seq::<char>::empty());
            assert(seq![prevc][0] == prevc);
            assert(encode_utf8(Seq::<char>::empty()) =~= Seq::<u8>::empty());
            assert(encode_utf8(seq![prevc]) == encode_scalar(prevc as u32) + encode_utf8(seq![prevc].drop_first()));
            assert(encode_utf8(seq![prevc]) =~= encode_scalar(prevc as u32));
            lemma_encode_scalar_no_percent(prevc);
            assert(encode_scalar(prevc as u32).len() >= 1);
        }
        assert forall|i: int| 0 <= i < e.len() && e.len() - 2 <= i implies e[i] != 37 by {
            if i >= ef.len() {
                assert(e[i] == el[i - ef.len()]);
            } else {
                assert(el.len() == 1);
                assert(n >= 2);
                let ff = front.drop_last();
                let ep = encode_scalar(front[n - 2] as u32);
                assert(ef == encode_utf8(ff) + ep);
                assert(e[i] == ef[i]);
                assert(ef[i] == ep[i - encode_utf8(ff).len()]);
            }
        }
    }
}

/// A request target is decoded piece by piece: where the first piece does not
/// end inside an escape (no `%` among its last two characters), the bytes
/// decoded from the whole are those of the first piece followed by those of
/// the second.
pub proof fn law_decoding_splits(u: Seq<char>, v: Seq<char>)
    requires
        forall|i: int| 0 <= i < u.len() && u.len() - 2 <= i ==> u[i] != '%',
    ensures
        decoded_uri_bytes(u + v) == decoded_uri_bytes(u) + decoded_uri_bytes(v),
{
    lemma_encode_utf8_concat(u, v);
    lemma_encode_utf8_no_percent_at_end(u);
    lemma_percent_decoded_split(encode_utf8(u), encode_utf8(v));
}

/// A request target with no `%` in it is read as it stands, whatever its
/// length: the bytes decoded are all of its UTF-8 bytes, unchanged, and the
/// URL whose query is read is `http://localhost` followed by the whole target.
pub proof fn law_plain_target_read_whole(uri: Seq<char>)
    requires
        forall|i: int| 0 <= i < uri.len() ==> uri[i] != '%',
    ensures
        decoded_uri_bytes(uri) == encode_utf8(uri),
        localhost_url(uri) == "http://localhost"@ + uri,
{
    lemma_encode_utf8_no_percent(uri);
    lemma_percent_decoded_plain(encode_utf8(uri));
}

/// In a request target, `%` followed by two hexadecimal digits is read as the
/// one byte they spell, and the text on either side of it (with no `%` of its
/// own) as it stands.
pub proof fn law_escape_read_as_byte(before: Seq<char>, h1: char, h2: char, after: Seq<char>)
    requires
        forall|i: int| 0 <= i < before.len() ==> before[i] != '%',
        forall|i: int| 0 <= i < after.len() ==> after[i] != '%',
        ('0' <= h1 <= '9') || ('a' <= h1 <= 'f') || ('A' <= h1 <= 'F'),
        ('0' <= h2 <= '9') || ('a' <= h2 <= 'f') || ('A' <= h2 <= 'F'),
    ensures
        decoded_uri_bytes(before + seq!['%', h1, h2] + after) == encode_utf8(before) + seq![
            (hex_digit(h1 as u8)->0 * 16 + hex_digit(h2 as u8)->0) as u8,
        ] + encode_utf8(after),
{
    let esc = seq!['%', h1, h2];
    lemma_encode_utf8_concat(before, esc);
    lemma_encode_utf8_concat(before + esc, after);
    assert(is_ascii_chars(esc));
    is_ascii_chars_encode_utf8(esc);
    let eb = encode_utf8(esc);
    assert(eb =~= seq![37u8, h1 as u8, h2 as u8]);
    let tail = eb + encode_utf8(after);
    assert(encode_utf8(before + esc + after) =~= encode_utf8(before) + tail);
    lemma_encode_utf8_no_percent(before);
    lemma_encode_utf8_no_percent(after);
    lemma_percent_decoded_plain_prefix(encode_utf8(before), tail);
    assert(tail[0] == 37u8 && tail[1] == h1 as u8 && tail[2] == h2 as u8);
    assert(tail.subrange(3, tail.len() as int) =~= encode_utf8(after));
    lemma_percent_decoded_plain(encode_utf8(after));
}

/// The `(name, value)` pairs of a request's query string.
#[derive(Debug, Clone)]
pub struct QueryString {
    pairs: Vec<(String, String)>,
}

impl View for QueryString {
    type V = Seq<(Seq<char>, Seq<char>)>;

    closed spec fn view(&self) -> Seq<(Seq<char>, Seq<char>)> {
        pair_views(self.pairs@)
    }
}

impl QueryString {
    /// Reads the query string of a request target such as `/path?a=1&b=2`: the
    /// target is percent-decoded, must be UTF-8, and is parsed as a URL on
    /// `http://localhost`.
    pub fn from_uri(uri: &str) -> (r: Result<QueryString, UrlParseError>)
        ensures
            r matches Err(UrlParseError::Utf8(_)) <==> !valid_utf8(decoded_uri_bytes(uri@)),
            r matches Err(UrlParseError::Url(_)) <==> valid_utf8(decoded_uri_bytes(uri@))
                && url_query_pairs(localhost_url(uri@)) is None,
            r matches Ok(q) ==> url_query_pairs(localhost_url(uri@)) == Some(q@),
    {
        let decoded = match decode_percent_utf8(uri.as_bytes()) {
            Ok(s) => s,
            Err(e) => {
                return Err(UrlParseError::Utf8(e));
            },
        };
        let mut text = "http://localhost".to_owned();
        text.append(decoded.as_str());
        match parse_query_pairs(text.as_str()) {
            Ok(pairs) => Ok(QueryString { pairs }),
            Err(e) => Err(UrlParseError::Url(e)),
        }
    }

    /// A query string made of the given pairs.
    pub fn from_pairs(pairs: Vec<(String, String)>) -> (r: QueryString)
        ensures
            r@ == pair_views(pairs@),
    {
        QueryString { pairs }
    }

    /// The values paired with `key`, in order.
    pub fn key<'t>(&'t self, key: &str) -> (r: QueryStringIterator<'t>)
        ensures
            r.remaining() == values_for(self@, key@),
    {
        let r = QueryStringIterator { pairs: self.pairs.as_slice(), key: key.to_owned(), pos: 0 };
        assert(pair_views(r.pairs@).skip(0) =~= self@);
        r
    }

    /// Gathers the values of each key into a map whose keys come in byte order.
    pub fn into_map(&self) -> (r: QueryMap)
        ensures
            r.wf(),
            r.holds(self@),
    {
        let mut entries: Vec<(String, Value<String>)> = Vec::new();
        let ghost pv = self@;
        let mut n: usize = 0;
        proof {
            assert(pv.take(0) =~= Seq::<(Seq<char>, Seq<char>)>::empty());
        }
        while n < self.pairs.len()
            invariant
                pv == pair_views(self.pairs@),
                n <= self.pairs@.len(),
                (QueryMap { entries }).wf(),
                (QueryMap { entries }).holds(pv.take(n as int)),
            decreases self.pairs@.len() - n,
        {
            let key = self.pairs[n].0.clone();
            let val = self.pairs[n].1.clone();
            let ghost m0 = QueryMap { entries };
            let mut j: usize = 0;
            while j < entries.len() && bytes_less(entries[j].0.as_str().as_bytes(), key.as_str().as_bytes())
                invariant
                    j <= entries@.len(),
                    forall|t: int|
                        0 <= t < j ==> bytes_lt(encode_utf8(#[trigger] entries@[t].0@), encode_utf8(key@)),
                decreases entries@.len() - j,
            {
                j = j + 1;
            }
            proof {
                lemma_values_for_take(pv, n as int, key@);
                assert(pv[n as int] == (key@, val@));
            }
            if j < entries.len() && entries[j].0 == key {
                entries[j].1.push(val);
                proof {
                    lemma_push_keeps_map(m0, QueryMap { entries }, j as int, pv, n as int);
                }
            } else {
                entries.insert(j, (key, Value::One(val)));
                proof {
                    lemma_insert_keeps_map(m0, QueryMap { entries }, j as int, pv, n as int);
                }
            }
            n = n + 1;
        }
        proof {
            assert(pv.take(n as int) =~= pv);
        }
        QueryMap { entries }
    }

    /// All `(name, value)` pairs, in order.
    pub fn iter(&self) -> (r: &[(String, String)])
        ensures
            pair_views(r@) == self@,
    {
        self.pairs.as_slice()
    }
}


/// The values that a query string holds for one key: none, one, or several.
#[derive(Debug)]
pub enum Value<T> {
    Empty,
    One(T),
    Vec(Vec<T>),
}

/// Some call of `func` on `x` may return `Ok`.
pub open spec fn yields_ok<T, Q, E, F: Fn(&T) -> Result<Q, E>>(func: F, x: &T) -> bool {
    exists|q: Q| call_ensures(func, (x,), Ok(q))
}

/// What `v.try_map(func)` may give: on success the results, one per value in
/// order, in the shape of `v`; otherwise the error of the first value on which
/// `func` failed, every earlier value having given a result.
pub open spec fn try_map_gives<T, Q, E, F: Fn(&T) -> Result<Q, E>>(
    v: Value<T>,
    func: F,
    r: Result<Value<Q>, E>,
) -> bool {
    match r {
        Ok(m) => {
            &&& v.same_shape(&m)
            &&& m.items().len() == v.items().len()
            &&& forall|i: int|
                0 <= i < v.items().len() ==> call_ensures(func, (&v.items()[i],), Ok(#[trigger] m.items()[i]))
        },
        Err(e) => exists|k: int|
            #![trigger v.items()[k]]
            {
                &&& 0 <= k < v.items().len()
                &&& call_ensures(func, (&v.items()[k],), Err(e))
                &&& forall|j: int| 0 <= j < k ==> yields_ok(func, &#[trigger] v.items()[j])
            },
    }
}

/// Mapping with a function that gives back each value unchanged succeeds, and
/// gives a value of the same shape holding the same values in the same order.
pub proof fn law_try_map_identity<T, E, F: Fn(&T) -> Result<T, E>>(
    v: Value<T>,
    func: F,
    r: Result<Value<T>, E>,
)
    requires
        try_map_gives(v, func, r),
        forall|x: &T, y: Result<T, E>| #[trigger] call_ensures(func, (x,), y) ==> y == Ok::<T, E>(*x),
    ensures
        r matches Ok(w) && v.same_shape(&w) && w.items() == v.items(),
{
    match r {
        Ok(w) => {
            assert forall|i: int| 0 <= i < v.items().len() implies w.items()[i] == v.items()[i] by {
                assert(call_ensures(func, (&v.items()[i],), Ok(w.items()[i])));
            }
            assert(w.items() =~= v.items());
        },
        Err(e) => {
            let k = choose|k: int|
                #![trigger v.items()[k]]
                {
                    &&& 0 <= k < v.items().len()
                    &&& call_ensures(func, (&v.items()[k],), Err(e))
                    &&& forall|j: int| 0 <= j < k ==> yields_ok(func, &#[trigger] v.items()[j])
                };
            assert(call_ensures(func, (&v.items()[k],), Err(e)));
        },
    }
}

/// Mapping with a function that clones each value succeeds, and gives a value
/// of the same shape holding, in the same order, a clone of each value.
pub proof fn law_try_map_clone<T: Clone, E, F: Fn(&T) -> Result<T, E>>(
    v: Value<T>,
    func: F,
    r: Result<Value<T>, E>,
)
    requires
        try_map_gives(v, func, r),
        forall|x: &T, y: Result<T, E>| #[trigger]
            call_ensures(func, (x,), y) ==> (y matches Ok(c) && cloned(*x, c)),
    ensures
        r matches Ok(w) && v.same_shape(&w) && w.items().len() == v.items().len() && (forall|i: int|
            0 <= i < v.items().len() ==> cloned(v.items()[i], #[trigger] w.items()[i])),
{
    match r {
        Ok(w) => {
            assert forall|i: int| 0 <= i < v.items().len() implies cloned(
                v.items()[i],
                #[trigger] w.items()[i],
            ) by {
                assert(call_ensures(func, (&v.items()[i],), Ok(w.items()[i])));
            }
        },
        Err(e) => {
            let k = choose|k: int|
                #![trigger v.items()[k]]
                {
                    &&& 0 <= k < v.items().len()
                    &&& call_ensures(func, (&v.items()[k],), Err(e))
                    &&& forall|j: int| 0 <= j < k ==> yields_ok(func, &#[trigger] v.items()[j])
                };
            assert(call_ensures(func, (&v.items()[k],), Err(e)));
        },
    }
}

impl<T> Value<T> {
    /// The values held, in the order in which they were pushed.
    pub open spec fn items(&self) -> Seq<T> {
        match self {
            Value::Empty => Seq::empty(),
            Value::One(v) => seq![*v],
            Value::Vec(vs) => vs@,
        }
    }

    /// Appends a value: `Empty` becomes `One`, `One` becomes a `Vec` of two,
    /// and a `Vec` grows by one.
    pub fn push(&mut self, value: T)
        ensures
            final(self).items() == old(self).items().push(value),
            *old(self) is Empty ==> *final(self) is One,
            !(*old(self) is Empty) ==> *final(self) is Vec,
    {
        let mut tmp = Value::Empty;
        std::mem::swap(&mut tmp, self);
        *self = match tmp {
            Value::Empty => Value::One(value),
            Value::One(v) => {
                let mut vs = Vec::new();
                vs.push(v);
                vs.push(value);
                proof {
                    assert(vs@ =~= seq![v].push(value));
                }
                Value::Vec(vs)
            },
            Value::Vec(mut v) => {
                v.push(value);
                Value::Vec(v)
            },
        };
    }

    /// `self` and `other` are the same variant.
    pub open spec fn same_shape<Q>(&self, other: &Value<Q>) -> bool {
        &&& (*self is Empty <==> *other is Empty)
        &&& (*self is One <==> *other is One)
        &&& (*self is Vec <==> *other is Vec)
    }

    /// Applies `func` to each value in order. The first error stops the
    /// walk and is returned; otherwise the results keep the shape of `self`.
    pub fn try_map<Q, F, E>(&self, func: F) -> (r: Result<Value<Q>, E>) where
        F: Fn(&T) -> Result<Q, E>,
        E: std::fmt::Debug,
        requires
            forall|i: int| 0 <= i < self.items().len() ==> call_requires(func, (&self.items()[i],)),
        ensures
            try_map_gives(*self, func, r),
    {
        match self {
            Value::Empty => Ok(Value::Empty),
            Value::One(v) => {
                assert(self.items()[0] == *v);
                match func(v) {
                    Ok(q) => {
                        let r = Value::One(q);
                        assert(r.items()[0] == q);
                        Ok(r)
                    },
                    Err(e) => {
                        assert(self.items()[0] == *v);
                        Err(e)
                    },
                }
            },
            Value::Vec(vs) => {
                let mut nv: Vec<Q> = Vec::with_capacity(vs.len());
                let mut i: usize = 0;
                assert forall|j: int| 0 <= j < vs@.len() implies call_requires(
                    func,
                    (&vs@[j],),
                ) by {
                    assert(self.items()[j] == vs@[j]);
                }
                while i < vs.len()
                    invariant
                        vs@ == self.items(),
                        i <= vs.len(),
                        nv@.len() == i,
                        forall|j: int| 0 <= j < vs@.len() ==> call_requires(func, (&vs@[j],)),
                        forall|j: int|
                            0 <= j < i ==> call_ensures(func, (&vs@[j],), Ok(#[trigger] nv@[j])),
                    decreases vs.len() - i,
                {
                    match func(&vs[i]) {
                        Ok(q) => {
                            nv.push(q);
                        },
                        Err(e) => {
                            assert forall|j: int| 0 <= j < i implies yields_ok(
                                func,
                                &#[trigger] self.items()[j],
                            ) by {
                                assert(call_ensures(func, (&vs@[j],), Ok(nv@[j])));
                            }
                            assert(self.items()[i as int] == vs@[i as int]);
                            return Err(e);
                        },
                    }
                    i = i + 1;
                }
                Ok(Value::Vec(nv))
            },
        }
    }
}


/// Byte-wise lexicographic order, the order of Rust's `str` and `String`.
pub open spec fn bytes_lt(a: Seq<u8>, b: Seq<u8>) -> bool
    decreases a.len(),
{
    if a.len() == 0 {
        b.len() > 0
    } else if b.len() == 0 {
        false
    } else if a[0] != b[0] {
        a[0] < b[0]
    } else {
        bytes_lt(a.drop_first(), b.drop_first())
    }
}

/// `a` and `b` agree on their first `i` bytes, and there `a` has ended while
/// `b` goes on, or `a`'s next byte is the smaller.
spec fn splits_before(a: Seq<u8>, b: Seq<u8>, i: int) -> bool {
    &&& 0 <= i <= a.len()
    &&& i <= b.len()
    &&& a.take(i) == b.take(i)
    &&& ((i == a.len() && i < b.len()) || (i < a.len() && i < b.len() && a[i] < b[i]))
}

proof fn lemma_bytes_lt_witness(a: Seq<u8>, b: Seq<u8>) -> (i: int)
    requires
        bytes_lt(a, b),
    ensures
        splits_before(a, b, i),
    decreases a.len(),
{
    if a.len() == 0 || a[0] != b[0] {
        assert(a.take(0) =~= b.take(0));
        0
    } else {
        let j = lemma_bytes_lt_witness(a.drop_first(), b.drop_first());
        assert(a.take(j + 1) =~= seq![a[0]] + a.drop_first().take(j));
        assert(b.take(j + 1) =~= seq![b[0]] + b.drop_first().take(j));
        j + 1
    }
}

proof fn lemma_bytes_lt_from_witness(a: Seq<u8>, b: Seq<u8>, i: int)
    requires
        splits_before(a, b, i),
    ensures
        bytes_lt(a, b),
    decreases a.len(),
{
    if i > 0 {
        assert(a.take(i)[0] == a[0]);
        assert(b.take(i)[0] == b[0]);
        assert(a.drop_first().take(i - 1) =~= a.take(i).drop_first());
        assert(b.drop_first().take(i - 1) =~= b.take(i).drop_first());
        lemma_bytes_lt_from_witness(a.drop_first(), b.drop_first(), i - 1);
    }
}

/// Byte order is lexicographic, whatever the lengths: `a` comes before `b`
/// exactly when, after the bytes they share at the start, `a` has ended and
/// `b` has not, or `a`'s next byte is smaller than `b`'s.
pub proof fn law_byte_order_is_lexicographic(a: Seq<u8>, b: Seq<u8>)
    ensures
        bytes_lt(a, b) <==> exists|i: int|
            #![trigger a.take(i), b.take(i)]
            0 <= i <= a.len() && i <= b.len() && a.take(i) == b.take(i) && ((i == a.len() && i
                < b.len()) || (i < a.len() && i < b.len() && a[i] < b[i])),
{
    if bytes_lt(a, b) {
        let i = lemma_bytes_lt_witness(a, b);
        assert(splits_before(a, b, i));
    } else {
        if exists|i: int|
            #![trigger a.take(i), b.take(i)]
            0 <= i <= a.len() && i <= b.len() && a.take(i) == b.take(i) && ((i == a.len() && i
                < b.len()) || (i < a.len() && i < b.len() && a[i] < b[i])) {
            let i = choose|i: int|
                #![trigger a.take(i), b.take(i)]
                0 <= i <= a.len() && i <= b.len() && a.take(i) == b.take(i) && ((i == a.len() && i
                    < b.len()) || (i < a.len() && i < b.len() && a[i] < b[i]));
            lemma_bytes_lt_from_witness(a, b, i);
        }
    }
}

proof fn lemma_bytes_lt_irreflexive(a: Seq<u8>)
    ensures
        !bytes_lt(a, a),
    decreases a.len(),
{
    if a.len() > 0 {
        lemma_bytes_lt_irreflexive(a.drop_first());
    }
}

proof fn lemma_bytes_lt_total(a: Seq<u8>, b: Seq<u8>)
    requires
        a != b,
    ensures
        bytes_lt(a, b) || bytes_lt(b, a),
    decreases a.len(),
{
    if a.len() > 0 && b.len() > 0 && a[0] == b[0] {
        if a.drop_first() == b.drop_first() {
            assert(a =~= seq![a[0]] + a.drop_first());
            assert(b =~= seq![b[0]] + b.drop_first());
        }
        lemma_bytes_lt_total(a.drop_first(), b.drop_first());
    } else if a.len() == 0 && b.len() == 0 {
        assert(a =~= b);
    }
}

proof fn lemma_bytes_lt_transitive(a: Seq<u8>, b: Seq<u8>, c: Seq<u8>)
    requires
        bytes_lt(a, b),
        bytes_lt(b, c),
    ensures
        bytes_lt(a, c),
    decreases a.len(),
{
    if a.len() > 0 && b.len() > 0 && c.len() > 0 && a[0] == b[0] && b[0] == c[0] {
        lemma_bytes_lt_transitive(a.drop_first(), b.drop_first(), c.drop_first());
    }
}

proof fn lemma_encode_utf8_injective(a: Seq<char>, b: Seq<char>)
    requires
        encode_utf8(a) == encode_utf8(b),
    ensures
        a == b,
{
    assert(decode_utf8(encode_utf8(a)) == a);
    assert(decode_utf8(encode_utf8(b)) == b);
}

/// Compares two byte strings in byte-wise lexicographic order.
fn bytes_less(a: &[u8], b: &[u8]) -> (r: bool)
    ensures
        r == bytes_lt(a@, b@),
{
    let mut i: usize = 0;
    assert(a@.skip(0) =~= a@);
    assert(b@.skip(0) =~= b@);
    while i < a.len() && i < b.len() && a[i] == b[i]
        invariant
            i <= a@.len(),
            i <= b@.len(),
            bytes_lt(a@, b@) == bytes_lt(a@.skip(i as int), b@.skip(i as int)),
        decreases a@.len() - i,
    {
        proof {
            let sa = a@.skip(i as int);
            let sb = b@.skip(i as int);
            assert(sa.drop_first() =~= a@.skip(i + 1));
            assert(sb.drop_first() =~= b@.skip(i + 1));
        }
        i = i + 1;
    }
    if i == a.len() {
        i < b.len()
    } else if i == b.len() {
        false
    } else {
        a[i] < b[i]
    }
}

/// A query string read into a map: each key once, in increasing byte order,
/// with the values it has, in the order in which they occur.
///
/// The entries are held in a `Vec` sorted by key, with that order as the
/// invariant: vstd's specification of `BTreeMap` holds only for key types
/// whose ordering it specifies (`key_obeys_cmp_spec`), and it specifies none
/// for `String`.
pub struct QueryMap {
    entries: Vec<(String, Value<String>)>,
}

impl QueryMap {
    /// The entries, in order.
    pub closed spec fn contents(&self) -> Seq<(String, Value<String>)> {
        self.entries@
    }

    /// The key of entry `i`.
    pub open spec fn key_at(&self, i: int) -> Seq<char> {
        self.contents()[i].0@
    }

    /// The values of entry `i`, in order.
    pub open spec fn values_at(&self, i: int) -> Seq<Seq<char>> {
        self.contents()[i].1.items().map_values(|v: String| v@)
    }

    /// Keys strictly increase in byte order, so none occurs twice; each entry
    /// holds at least one value, as `One` when it holds exactly one.
    pub open spec fn wf(&self) -> bool {
        &&& forall|i: int, j: int|
            0 <= i < j < self.contents().len() ==> bytes_lt(
                encode_utf8(#[trigger] self.key_at(i)),
                encode_utf8(#[trigger] self.key_at(j)),
            )
        &&& forall|i: int|
            0 <= i < self.contents().len() ==> {
                &&& !(#[trigger] self.contents()[i].1 is Empty)
                &&& (self.contents()[i].1 is One <==> self.values_at(i).len() == 1)
            }
    }

    /// The values that the map gives each key of `pairs`, and no other key.
    pub open spec fn holds(&self, pairs: Seq<(Seq<char>, Seq<char>)>) -> bool {
        &&& forall|k: Seq<char>|
            (exists|i: int| 0 <= i < self.contents().len() && #[trigger] self.key_at(i) == k)
                <==> #[trigger] values_for(pairs, k).len() > 0
        &&& forall|i: int|
            0 <= i < self.contents().len() ==> #[trigger] self.values_at(i) == values_for(
                pairs,
                self.key_at(i),
            )
    }
}

/// The keys of a map come in lexicographic byte order, shorter or longer:
/// of two entries, the earlier key agrees with the later one up to a point
/// where it has ended and the later has not, or has the smaller byte.
pub proof fn law_map_keys_in_lexicographic_order(m: QueryMap, i: int, j: int)
    requires
        m.wf(),
        0 <= i < j < m.contents().len(),
    ensures
        ({
            let a = encode_utf8(m.key_at(i));
            let b = encode_utf8(m.key_at(j));
            exists|k: int|
                #![trigger a.take(k), b.take(k)]
                0 <= k <= a.len() && k <= b.len() && a.take(k) == b.take(k) && ((k == a.len() && k
                    < b.len()) || (k < a.len() && k < b.len() && a[k] < b[k]))
        }),
{
    assert(bytes_lt(encode_utf8(m.key_at(i)), encode_utf8(m.key_at(j))));
    law_byte_order_is_lexicographic(encode_utf8(m.key_at(i)), encode_utf8(m.key_at(j)));
}

impl QueryMap {
    /// The values of key `k` in the map, none when `k` is absent.
    pub open spec fn values_of(&self, k: Seq<char>) -> Seq<Seq<char>> {
        if exists|i: int| 0 <= i < self.contents().len() && #[trigger] self.key_at(i) == k {
            self.values_at(choose|i: int| 0 <= i < self.contents().len() && #[trigger] self.key_at(i) == k)
        } else {
            Seq::empty()
        }
    }

    /// The number of keys.
    pub fn len(&self) -> (r: usize)
        ensures
            r == self.contents().len(),
    {
        self.entries.len()
    }

    /// The entries, in increasing order of their keys.
    pub fn iter(&self) -> (r: &[(String, Value<String>)])
        ensures
            r@ == self.contents(),
    {
        self.entries.as_slice()
    }

    /// The values of `key`, if the map has it.
    pub fn get(&self, key: &str) -> (r: Option<&Value<String>>)
        ensures
            match r {
                Some(v) => exists|i: int|
                    0 <= i < self.contents().len() && #[trigger] self.key_at(i) == key@ && *v
                        == self.contents()[i].1,
                None => forall|i: int| 0 <= i < self.contents().len() ==> #[trigger] self.key_at(i) != key@,
            },
    {
        let wanted = key.to_owned();
        let mut i: usize = 0;
        while i < self.entries.len()
            invariant
                i <= self.entries@.len(),
                wanted@ == key@,
                forall|t: int| 0 <= t < i ==> #[trigger] self.key_at(t) != key@,
            decreases self.entries@.len() - i,
        {
            if self.entries[i].0 == wanted {
                assert(self.key_at(i as int) == key@);
                return Some(&self.entries[i].1);
            }
            i = i + 1;
        }
        None
    }
}

/// A map that holds the pairs of a query string gives each key the values
/// paired with it, in order, and no value to a key that the query string lacks;
/// these are the values that walking the key with `QueryString::key` gives.
pub proof fn law_map_values_are_key_values(m: QueryMap, pairs: Seq<(Seq<char>, Seq<char>)>, k: Seq<char>)
    requires
        m.holds(pairs),
    ensures
        m.values_of(k) == values_for(pairs, k),
{
    if exists|i: int| 0 <= i < m.contents().len() && #[trigger] m.key_at(i) == k {
        let i = choose|i: int| 0 <= i < m.contents().len() && #[trigger] m.key_at(i) == k;
        assert(m.values_at(i) == values_for(pairs, m.key_at(i)));
    } else {
        assert(values_for(pairs, k).len() == 0);
        assert(values_for(pairs, k) =~= Seq::<Seq<char>>::empty());
    }
}

proof fn lemma_distinct_keys(m: QueryMap, i: int, j: int)
    requires
        m.wf(),
        0 <= i < m.contents().len(),
        0 <= j < m.contents().len(),
        i != j,
    ensures
        m.key_at(i) != m.key_at(j),
{
    if i < j {
        assert(bytes_lt(encode_utf8(m.key_at(i)), encode_utf8(m.key_at(j))));
    } else {
        assert(bytes_lt(encode_utf8(m.key_at(j)), encode_utf8(m.key_at(i))));
    }
    if m.key_at(i) == m.key_at(j) {
        lemma_bytes_lt_irreflexive(encode_utf8(m.key_at(i)));
    }
}

proof fn lemma_push_keeps_map(
    m0: QueryMap,
    m1: QueryMap,
    j: int,
    pairs: Seq<(Seq<char>, Seq<char>)>,
    n: int,
)
    requires
        m0.wf(),
        m0.holds(pairs.take(n)),
        0 <= n < pairs.len(),
        0 <= j < m0.contents().len(),
        m0.key_at(j) == pairs[n].0,
        m1.contents().len() == m0.contents().len(),
        forall|i: int| 0 <= i < m0.contents().len() && i != j ==> m1.contents()[i] == m0.contents()[i],
        m1.contents()[j].0 == m0.contents()[j].0,
        m1.contents()[j].1.items() == m0.contents()[j].1.items().push(m1.contents()[j].1.items().last()),
        m1.contents()[j].1.items().last()@ == pairs[n].1,
        m1.contents()[j].1 is Vec,
    ensures
        m1.wf(),
        m1.holds(pairs.take(n + 1)),
{
    let key = pairs[n].0;
    assert forall|i: int| 0 <= i < m1.contents().len() implies #[trigger] m1.key_at(i) == m0.key_at(i) by {}
    assert forall|i: int| 0 <= i < m1.contents().len() implies #[trigger] m1.values_at(i) == values_for(
        pairs.take(n + 1),
        m1.key_at(i),
    ) by {
        lemma_values_for_take(pairs, n, m1.key_at(i));
        if i == j {
            assert(m1.values_at(i) =~= m0.values_at(i).push(pairs[n].1));
        } else {
            lemma_distinct_keys(m0, i, j);
        }
    }
    assert forall|k: Seq<char>|
        (exists|i: int| 0 <= i < m1.contents().len() && #[trigger] m1.key_at(i) == k)
            <==> #[trigger] values_for(pairs.take(n + 1), k).len() > 0 by {
        lemma_values_for_take(pairs, n, k);
        if k == key {
            assert(m1.key_at(j) == k);
        } else {
            if exists|i: int| 0 <= i < m0.contents().len() && #[trigger] m0.key_at(i) == k {
                let i = choose|i: int| 0 <= i < m0.contents().len() && #[trigger] m0.key_at(i) == k;
                assert(m1.key_at(i) == k);
            }
        }
    }
    assert forall|i: int| 0 <= i < m1.contents().len() implies {
        &&& !(#[trigger] m1.contents()[i].1 is Empty)
        &&& (m1.contents()[i].1 is One <==> m1.values_at(i).len() == 1)
    } by {
        if i == j {
            assert(m1.values_at(i).len() == m0.values_at(i).len() + 1);
        }
    }
}

proof fn lemma_insert_keeps_map(
    m0: QueryMap,
    m1: QueryMap,
    j: int,
    pairs: Seq<(Seq<char>, Seq<char>)>,
    n: int,
)
    requires
        m0.wf(),
        m0.holds(pairs.take(n)),
        0 <= n < pairs.len(),
        0 <= j <= m0.contents().len(),
        forall|t: int| 0 <= t < j ==> bytes_lt(encode_utf8(#[trigger] m0.key_at(t)), encode_utf8(pairs[n].0)),
        j < m0.contents().len() ==> !bytes_lt(encode_utf8(m0.key_at(j)), encode_utf8(pairs[n].0)),
        j < m0.contents().len() ==> m0.key_at(j) != pairs[n].0,
        m1.contents().len() == m0.contents().len() + 1,
        m1.contents()[j].0@ == pairs[n].0,
        m1.contents()[j].1 is One,
        m1.contents()[j].1->One_0@ == pairs[n].1,
        forall|t: int| 0 <= t < j ==> m1.contents()[t] == m0.contents()[t],
        forall|t: int| j < t < m1.contents().len() ==> m1.contents()[t] == m0.contents()[t - 1],
    ensures
        m1.wf(),
        m1.holds(pairs.take(n + 1)),
{
    let key = pairs[n].0;
    let len0 = m0.contents().len() as int;
    if j < len0 {
        if encode_utf8(m0.key_at(j)) == encode_utf8(key) {
            lemma_encode_utf8_injective(m0.key_at(j), key);
        }
        lemma_bytes_lt_total(encode_utf8(m0.key_at(j)), encode_utf8(key));
    }
    // every old key is on one side of the new one
    assert forall|t: int| 0 <= t < len0 implies #[trigger] m0.key_at(t) != key
        && (t < j ==> bytes_lt(encode_utf8(m0.key_at(t)), encode_utf8(key)))
        && (t >= j ==> bytes_lt(encode_utf8(key), encode_utf8(m0.key_at(t)))) by {
        if t >= j {
            if t > j {
                lemma_bytes_lt_transitive(encode_utf8(key), encode_utf8(m0.key_at(j)), encode_utf8(m0.key_at(t)));
            }
            lemma_bytes_lt_irreflexive(encode_utf8(key));
            if m0.key_at(t) == key {
                assert(bytes_lt(encode_utf8(key), encode_utf8(key)));
            }
        } else {
            lemma_bytes_lt_irreflexive(encode_utf8(key));
        }
    }
    assert forall|t: int| 0 <= t < m1.contents().len() implies #[trigger] m1.key_at(t) == (if t < j {
        m0.key_at(t)
    } else if t == j {
        key
    } else {
        m0.key_at(t - 1)
    }) by {}
    assert forall|a: int, b: int| 0 <= a < b < m1.contents().len() implies bytes_lt(
        encode_utf8(#[trigger] m1.key_at(a)),
        encode_utf8(#[trigger] m1.key_at(b)),
    ) by {
        if b < j {
        } else if b == j {
        } else if a < j {
            lemma_bytes_lt_transitive(encode_utf8(m0.key_at(a)), encode_utf8(key), encode_utf8(m0.key_at(b - 1)));
        } else if a == j {
        } else {
            assert(m0.key_at(a - 1) == m1.key_at(a));
        }
    }
    // the new key had no value before
    assert(values_for(pairs.take(n), key).len() == 0) by {
        if values_for(pairs.take(n), key).len() > 0 {
            let i = choose|i: int| 0 <= i < len0 && #[trigger] m0.key_at(i) == key;
        }
    }
    assert forall|t: int| 0 <= t < m1.contents().len() implies #[trigger] m1.values_at(t) == values_for(
        pairs.take(n + 1),
        m1.key_at(t),
    ) by {
        lemma_values_for_take(pairs, n, m1.key_at(t));
        if t == j {
            assert(m1.values_at(t) =~= seq![pairs[n].1]);
            assert(values_for(pairs.take(n), key) =~= Seq::<Seq<char>>::empty());
        } else if t < j {
            assert(m1.values_at(t) == m0.values_at(t));
        } else {
            assert(m1.values_at(t) == m0.values_at(t - 1));
        }
    }
    assert forall|k: Seq<char>|
        (exists|i: int| 0 <= i < m1.contents().len() && #[trigger] m1.key_at(i) == k)
            <==> #[trigger] values_for(pairs.take(n + 1), k).len() > 0 by {
        lemma_values_for_take(pairs, n, k);
        if k == key {
            assert(m1.key_at(j) == k);
        } else {
            if exists|i: int| 0 <= i < len0 && #[trigger] m0.key_at(i) == k {
                let i = choose|i: int| 0 <= i < len0 && #[trigger] m0.key_at(i) == k;
                if i < j {
                    assert(m1.key_at(i) == k);
                } else {
                    assert(m1.key_at(i + 1) == k);
                }
            }
            if exists|i: int| 0 <= i < m1.contents().len() && #[trigger] m1.key_at(i) == k {
                let i = choose|i: int| 0 <= i < m1.contents().len() && #[trigger] m1.key_at(i) == k;
                if i < j {
                    assert(m0.key_at(i) == k);
                } else {
                    assert(m0.key_at(i - 1) == k);
                }
            }
        }
    }
    assert forall|t: int| 0 <= t < m1.contents().len() implies {
        &&& !(#[trigger] m1.contents()[t].1 is Empty)
        &&& (m1.contents()[t].1 is One <==> m1.values_at(t).len() == 1)
    } by {
        if t < j {
            assert(m1.values_at(t) == m0.values_at(t));
        } else if t > j {
            assert(m1.values_at(t) == m0.values_at(t - 1));
        } else {
            assert(m1.values_at(t).len() == 1);
        }
    }
}

/// Walks the values that one key has in a query string.
pub struct QueryStringIterator<'t> {
    pairs: &'t [(String, String)],
    key: String,
    pos: usize,
}

impl<'t> QueryStringIterator<'t> {
    #[verifier::type_invariant]
    closed spec fn in_bounds(&self) -> bool {
        self.pos <= self.pairs@.len()
    }

    /// The values that this walk has still to give, in order.
    pub closed spec fn remaining(&self) -> Seq<Seq<char>> {
        values_for(pair_views(self.pairs@).skip(self.pos as int), self.key@)
    }

    /// The next value paired with the key, if any is left.
    pub fn next(&mut self) -> (r: Option<String>)
        ensures
            match r {
                Some(v) => {
                    &&& old(self).remaining().len() > 0
                    &&& v@ == old(self).remaining()[0]
                    &&& final(self).remaining() == old(self).remaining().drop_first()
                },
                None => old(self).remaining().len() == 0 && final(self).remaining().len() == 0,
            },
    {
        proof {
            use_type_invariant(&*self);
        }
        let ghost pv = pair_views(self.pairs@);
        let ghost start = self.remaining();
        let ghost pairs0 = self.pairs;
        let ghost key0 = self.key;
        while self.pos < self.pairs.len()
            invariant
                start == old(self).remaining(),
                self.pairs == pairs0,
                self.key == key0,
                pv == pair_views(self.pairs@),
                self.pos <= self.pairs@.len(),
                values_for(pv.skip(self.pos as int), self.key@) == start,
            decreases self.pairs@.len() - self.pos,
        {
            let i = self.pos;
            proof {
                assert(pv.skip(i as int) =~= seq![pv[i as int]] + pv.skip(i + 1));
                lemma_values_for_prepend(pv[i as int], pv.skip(i + 1), self.key@);
            }
            self.pos = i + 1;
            if self.pairs[i].0 == self.key {
                let v = self.pairs[i].1.clone();
                proof {
                    let rest = values_for(pv.skip(i + 1), self.key@);
                    assert(pv[i as int].0 == self.key@);
                    assert(start =~= seq![pv[i as int].1] + rest);
                    assert(start.drop_first() =~= rest);
                }
                return Some(v);
            }
        }
        proof {
            assert(pv.skip(self.pos as int) =~= Seq::<(Seq<char>, Seq<char>)>::empty());
        }
        None
    }
}

} // verus!
