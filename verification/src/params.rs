//! Assembly of the query string a stream endpoint is opened with.
//!
//! A [`Params`] value is a base address together with the query pairs
//! appended to it so far, in order.  The builder methods record pairs as
//! plain strings; only [`Params::finish`] hands the assembled list to the
//! `url` crate, which parses the base address and percent-encodes each pair
//! into the final request URL.

use vstd::prelude::*;

verus! {

/// What `url::Url::parse` yields for a given input: `None` where the input
/// is not a valid absolute URL, otherwise the normalized serialization of
/// the parsed URL.  A function of the input characters alone.
pub uninterp spec fn parsed_url(s: Seq<char>) -> Option<Seq<char>>;

/// The serialization a `url::Url` value holds, the text `as_str` returns.
pub uninterp spec fn url_text(u: url::Url) -> Seq<char>;

/// The serialization of a URL after one query pair is appended to it:
/// a function of the previous serialization and the pair alone.
pub uninterp spec fn with_pair(text: Seq<char>, key: Seq<char>, value: Seq<char>) -> Seq<char>;

/// The JSON encoding of a string value: quoted and escaped, a function of
/// the characters alone.
pub uninterp spec fn json_string(s: Seq<char>) -> Seq<char>;

#[verifier::external_type_specification]
#[verifier::external_body]
pub struct ExUrl(url::Url);

/// Relies on `url::Url::parse`: whether the input parses, and the URL it
/// parses to, depend on the input string alone.
#[verifier::external_body]
fn parse_url(s: &str) -> (r: Option<url::Url>)
    ensures
        r is Some <==> parsed_url(s@) is Some,
        r matches Some(u) ==> url_text(u) == parsed_url(s@).unwrap(),
{
    url::Url::parse(s).ok()
}

/// Relies on `url::Url::query_pairs_mut` and `append_pair` of the serializer
/// it returns: the pair is percent-encoded and appended to the query, and
/// the new serialization depends only on the old one and the pair.
#[verifier::external_body]
fn append_query_pair(u: &mut url::Url, key: &str, value: &str)
    ensures
        url_text(*final(u)) == with_pair(url_text(*old(u)), key@, value@),
{
    u.query_pairs_mut().append_pair(key, value);
}

/// Relies on `url::Url::as_str`: it returns the URL's serialization.
#[verifier::external_body]
fn url_to_string(u: &url::Url) -> (r: String)
    ensures
        r@ == url_text(*u),
{
    u.as_str().to_owned()
}

/// Relies on `serde_json::to_string` on a string slice: the result is the
/// JSON encoding of the string, a function of its characters alone; on a
/// string slice serialization cannot fail.
#[verifier::external_body]
fn json_of_str(value: &str) -> (r: String)
    ensures
        r@ == json_string(value@),
{
    serde_json::to_string(value).unwrap()
}

/// One decimal digit as a character.
pub open spec fn decimal_digit(d: nat) -> char {
    if d == 0 {
        '0'
    } else if d == 1 {
        '1'
    } else if d == 2 {
        '2'
    } else if d == 3 {
        '3'
    } else if d == 4 {
        '4'
    } else if d == 5 {
        '5'
    } else if d == 6 {
        '6'
    } else if d == 7 {
        '7'
    } else if d == 8 {
        '8'
    } else {
        '9'
    }
}

/// The decimal digits of a natural number, most significant first.
pub open spec fn decimal_of(n: nat) -> Seq<char>
    decreases n,
{
    if n < 10 {
        seq![decimal_digit(n)]
    } else {
        decimal_of(n / 10).push(decimal_digit(n % 10))
    }
}

/// Relies on `serde_json::to_string` on an unsigned integer: integers
/// serialize as their plain decimal digits, and serialization of an integer
/// cannot fail.
#[verifier::external_body]
fn json_of_u32(value: u32) -> (r: String)
    ensures
        r@ == decimal_of(value as nat),
{
    serde_json::to_string(&value).unwrap()
}

/// The JSON text of a boolean.
pub open spec fn bool_text(b: bool) -> Seq<char> {
    if b {
        "true"@
    } else {
        "false"@
    }
}

/// Relies on `serde_json::to_string` on a bool: it serializes as the bare
/// literal `true` or `false`, and cannot fail.
#[verifier::external_body]
fn json_of_bool(value: bool) -> (r: String)
    ensures
        r@ == bool_text(value),
{
    serde_json::to_string(&value).unwrap()
}

/// A string wrapped in one double quote on each side, with no escaping.
pub open spec fn quoted(s: Seq<char>) -> Seq<char> {
    "\""@ + s + "\""@
}

/// A request-parameter builder: a base address and the query pairs appended
/// to it so far, in order.
pub struct Params {
    pub base: String,
    pub pairs: Vec<(String, String)>,
}

/// The mathematical image of a builder: the base address text and the
/// ordered key/value pairs.
pub struct ParamsView {
    pub base: Seq<char>,
    pub pairs: Seq<(Seq<char>, Seq<char>)>,
}

impl View for Params {
    type V = ParamsView;

    open spec fn view(&self) -> ParamsView {
        ParamsView {
            base: self.base@,
            pairs: self.pairs@.map_values(|p: (String, String)| (p.0@, p.1@)),
        }
    }
}

/// A builder with one more pair at the end, everything else unchanged.
pub open spec fn with_appended(v: ParamsView, key: Seq<char>, value: Seq<char>) -> ParamsView {
    ParamsView { base: v.base, pairs: v.pairs.push((key, value)) }
}

/// The serialization of the finished URL: the parsed base, with each
/// recorded pair appended in order.
pub open spec fn rendered(base_text: Seq<char>, pairs: Seq<(Seq<char>, Seq<char>)>) -> Seq<char>
    decreases pairs.len(),
{
    if pairs.len() == 0 {
        base_text
    } else {
        rendered(with_pair(base_text, pairs[0].0, pairs[0].1), pairs.drop_first())
    }
}

/// Appending one more pair to the list renders as appending that pair to the
/// rendering of the list so far.
pub proof fn lemma_rendered_push(
    base_text: Seq<char>,
    pairs: Seq<(Seq<char>, Seq<char>)>,
    p: (Seq<char>, Seq<char>),
)
    ensures
        rendered(base_text, pairs.push(p)) == with_pair(rendered(base_text, pairs), p.0, p.1),
    decreases pairs.len(),
{
    if pairs.len() == 0 {
        assert(pairs.push(p)[0] == p);
        assert(pairs.push(p).drop_first() =~= Seq::<(Seq<char>, Seq<char>)>::empty());
        assert(rendered(with_pair(base_text, p.0, p.1), Seq::<(Seq<char>, Seq<char>)>::empty())
            == with_pair(base_text, p.0, p.1));
    } else {
        assert(pairs.push(p)[0] == pairs[0]);
        assert(pairs.push(p).drop_first() =~= pairs.drop_first().push(p));
        lemma_rendered_push(with_pair(base_text, pairs[0].0, pairs[0].1), pairs.drop_first(), p);
    }
}

/// The failure a builder can end with: its base address is not a valid URL.
#[derive(Debug, PartialEq, Eq, Clone, Copy)]
pub enum ParamsError {
    InvalidUrl,
}

impl Params {
    /// Starts a builder over the given base address, with no query pairs.
    pub fn new(base: String) -> (r: Params)
        ensures
            r@.base == base@,
            r@.pairs.len() == 0,
    {
        let r = Params { base, pairs: Vec::new() };
        proof {
            assert(r@.pairs =~= Seq::<(Seq<char>, Seq<char>)>::empty());
        }
        r
    }

    /// Records one query pair, the value JSON-encoded as a string.
    pub fn add_param(&mut self, key: &str, value: &str) -> (r: &mut Params)
        ensures
            (*r)@ == with_appended(old(self)@, key@, json_string(value@)),
            *final(self) == *final(r),
    {
        let encoded = json_of_str(value);
        let ghost prev = self@;
        self.pairs.push((key.to_owned(), encoded));
        proof {
            assert(self@.pairs =~= prev.pairs.push((key@, json_string(value@))));
        }
        self
    }

    /// Records an `orderBy` pair; the key is wrapped in double quotes
    /// verbatim, with no escaping.
    pub fn order_by(&mut self, key: &str) -> (r: &mut Params)
        ensures
            (*r)@ == with_appended(old(self)@, "orderBy"@, quoted(key@)),
            *final(self) == *final(r),
    {
        let quoted_key = String::from_str("\"").concat(key).concat("\"");
        let ghost prev = self@;
        self.pairs.push(("orderBy".to_owned(), quoted_key));
        proof {
            assert(self@.pairs =~= prev.pairs.push(("orderBy"@, quoted(key@))));
        }
        self
    }

    /// Records a `limitToFirst` pair with the count in decimal.
    pub fn limit_to_first(&mut self, count: u32) -> (r: &mut Params)
        ensures
            (*r)@ == with_appended(old(self)@, "limitToFirst"@, decimal_of(count as nat)),
            *final(self) == *final(r),
    {
        let encoded = json_of_u32(count);
        let ghost prev = self@;
        self.pairs.push(("limitToFirst".to_owned(), encoded));
        proof {
            assert(self@.pairs =~= prev.pairs.push(("limitToFirst"@, decimal_of(count as nat))));
        }
        self
    }

    /// Records a `limitToLast` pair with the count in decimal.
    pub fn limit_to_last(&mut self, count: u32) -> (r: &mut Params)
        ensures
            (*r)@ == with_appended(old(self)@, "limitToLast"@, decimal_of(count as nat)),
            *final(self) == *final(r),
    {
        let encoded = json_of_u32(count);
        let ghost prev = self@;
        self.pairs.push(("limitToLast".to_owned(), encoded));
        proof {
            assert(self@.pairs =~= prev.pairs.push(("limitToLast"@, decimal_of(count as nat))));
        }
        self
    }

    /// Records a `startAt` pair with the index in decimal.
    pub fn start_at(&mut self, index: u32) -> (r: &mut Params)
        ensures
            (*r)@ == with_appended(old(self)@, "startAt"@, decimal_of(index as nat)),
            *final(self) == *final(r),
    {
        let encoded = json_of_u32(index);
        let ghost prev = self@;
        self.pairs.push(("startAt".to_owned(), encoded));
        proof {
            assert(self@.pairs =~= prev.pairs.push(("startAt"@, decimal_of(index as nat))));
        }
        self
    }

    /// Records an `endAt` pair with the index in decimal.
    pub fn end_at(&mut self, index: u32) -> (r: &mut Params)
        ensures
            (*r)@ == with_appended(old(self)@, "endAt"@, decimal_of(index as nat)),
            *final(self) == *final(r),
    {
        let encoded = json_of_u32(index);
        let ghost prev = self@;
        self.pairs.push(("endAt".to_owned(), encoded));
        proof {
            assert(self@.pairs =~= prev.pairs.push(("endAt"@, decimal_of(index as nat))));
        }
        self
    }

    /// Records an `equalTo` pair, the value JSON-encoded as a string.
    pub fn equal_to(&mut self, value: &str) -> (r: &mut Params)
        ensures
            (*r)@ == with_appended(old(self)@, "equalTo"@, json_string(value@)),
            *final(self) == *final(r),
    {
        self.add_param("equalTo", value)
    }

    /// Records a `shallow` pair with the flag's JSON text.
    pub fn shallow(&mut self, flag: bool) -> (r: &mut Params)
        ensures
            (*r)@ == with_appended(old(self)@, "shallow"@, bool_text(flag)),
            *final(self) == *final(r),
    {
        let encoded = json_of_bool(flag);
        let ghost prev = self@;
        self.pairs.push(("shallow".to_owned(), encoded));
        proof {
            assert(self@.pairs =~= prev.pairs.push(("shallow"@, bool_text(flag))));
        }
        self
    }

    /// Records the export form of the query: an `orderBy` pair with the
    /// plain value `export`.
    pub fn format(&mut self) -> (r: &mut Params)
        ensures
            (*r)@ == with_appended(old(self)@, "orderBy"@, "export"@),
            *final(self) == *final(r),
    {
        let ghost prev = self@;
        self.pairs.push(("orderBy".to_owned(), "export".to_owned()));
        proof {
            assert(self@.pairs =~= prev.pairs.push(("orderBy"@, "export"@)));
        }
        self
    }

    /// Assembles the finished request URL: parses the base address and
    /// appends every recorded pair in order.  Fails exactly when the base
    /// address is not a valid URL.
    pub fn finish(&self) -> (r: Result<String, ParamsError>)
        ensures
            r is Ok <==> parsed_url(self@.base) is Some,
            r matches Ok(s) ==> s@ == rendered(parsed_url(self@.base).unwrap(), self@.pairs),
            r is Err ==> r == Err::<String, ParamsError>(ParamsError::InvalidUrl),
    {
        match parse_url(self.base.as_str()) {
            None => Err(ParamsError::InvalidUrl),
            Some(mut u) => {
                let mut i: usize = 0;
                while i < self.pairs.len()
                    invariant
                        i <= self.pairs.len(),
                        parsed_url(self@.base) is Some,
                        self@.pairs.len() == self.pairs@.len(),
                        url_text(u) == rendered(
                            parsed_url(self@.base).unwrap(),
                            self@.pairs.take(i as int),
                        ),
                    decreases self.pairs.len() - i,
                {
                    let pair = &self.pairs[i];
                    proof {
                        assert(self@.pairs[i as int] == (self.pairs@[i as int].0@, self.pairs@[
                            i as int].1@));
                    }
                    append_query_pair(&mut u, pair.0.as_str(), pair.1.as_str());
                    proof {
                        lemma_rendered_push(
                            parsed_url(self@.base).unwrap(),
                            self@.pairs.take(i as int),
                            self@.pairs[i as int],
                        );
                        assert(self@.pairs.take(i as int).push(self@.pairs[i as int])
                            =~= self@.pairs.take(i as int + 1));
                    }
                    i = i + 1;
                }
                proof {
                    assert(self@.pairs.take(self.pairs.len() as int) =~= self@.pairs);
                }
                Ok(url_to_string(&u))
            },
        }
    }
}

} // verus!
