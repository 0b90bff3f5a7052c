//! The strict decoder for listing requests given as query pairs.
use vstd::prelude::*;
use vstd::string::StrSliceExecFns;

verus! {

/// How keys in a listing response are encoded.
#[derive(Clone, Copy, Debug, PartialEq, Eq, Structural)]
pub enum EncodingType {
    Url,
}

/// Who pays for a request.
#[derive(Clone, Copy, Debug, PartialEq, Eq, Structural)]
pub enum RequestPayer {
    Requester,
}

/// A decoded listing request; every parameter is optional.
pub struct ListBucketRequest {
    pub bucket: Option<String>,
    pub delimiter: Option<String>,
    pub encoding_type: Option<EncodingType>,
    pub max_keys: Option<i32>,
    pub prefix: Option<String>,
    pub continuation_token: Option<String>,
    pub fetch_owner: Option<bool>,
    pub start_after: Option<String>,
    pub request_payer: Option<RequestPayer>,
    pub expected_bucket_owner: Option<String>,
}

/// The content of a [`ListBucketRequest`], with texts as character sequences.
pub struct RequestView {
    pub bucket: Option<Seq<char>>,
    pub delimiter: Option<Seq<char>>,
    pub encoding_type: Option<EncodingType>,
    pub max_keys: Option<i32>,
    pub prefix: Option<Seq<char>>,
    pub continuation_token: Option<Seq<char>>,
    pub fetch_owner: Option<bool>,
    pub start_after: Option<Seq<char>>,
    pub request_payer: Option<RequestPayer>,
    pub expected_bucket_owner: Option<Seq<char>>,
}

/// The characters of an optional string.
pub open spec fn opt_view(o: Option<String>) -> Option<Seq<char>> {
    match o {
        Some(s) => Some(s@),
        None => None,
    }
}

impl View for ListBucketRequest {
    type V = RequestView;

    open spec fn view(&self) -> RequestView {
        RequestView {
            bucket: opt_view(self.bucket),
            delimiter: opt_view(self.delimiter),
            encoding_type: self.encoding_type,
            max_keys: self.max_keys,
            prefix: opt_view(self.prefix),
            continuation_token: opt_view(self.continuation_token),
            fetch_owner: self.fetch_owner,
            start_after: opt_view(self.start_after),
            request_payer: self.request_payer,
            expected_bucket_owner: opt_view(self.expected_bucket_owner),
        }
    }
}

/// Why a query could not be decoded.
pub enum DecodeError {
    /// A parameter name outside the registry.
    UnknownField { name: String },
    /// A known parameter whose text cannot be read as its type; `value` is that text.
    InvalidValue { name: String, value: String },
}

/// The content of a [`DecodeError`].
pub enum DecodeErrorView {
    UnknownField(Seq<char>),
    InvalidValue(Seq<char>, Seq<char>),
}

impl View for DecodeError {
    type V = DecodeErrorView;

    open spec fn view(&self) -> DecodeErrorView {
        match self {
            DecodeError::UnknownField { name } => DecodeErrorView::UnknownField(name@),
            DecodeError::InvalidValue { name, value } => DecodeErrorView::InvalidValue(name@, value@),
        }
    }
}

/// The request with no parameter set.
pub open spec fn empty_request() -> RequestView {
    RequestView {
        bucket: None,
        delimiter: None,
        encoding_type: None,
        max_keys: None,
        prefix: None,
        continuation_token: None,
        fetch_owner: None,
        start_after: None,
        request_payer: None,
        expected_bucket_owner: None,
    }
}

/// A decimal digit.
pub open spec fn is_digit(c: char) -> bool {
    '0' <= c && c <= '9'
}

/// A non-empty run of decimal digits.
pub open spec fn all_digits(s: Seq<char>) -> bool {
    s.len() > 0 && forall|i: int| 0 <= i < s.len() ==> is_digit(#[trigger] s[i])
}

/// The number that a run of decimal digits denotes.
pub open spec fn digits_value(s: Seq<char>) -> int
    decreases s.len(),
{
    if s.len() == 0 {
        0
    } else {
        digits_value(s.drop_last()) * 10 + (s.last() as int - '0' as int)
    }
}

/// The integer that `s` denotes: decimal digits, with an optional leading
/// `+` or `-`.
pub open spec fn int_of_text(s: Seq<char>) -> Option<int> {
    if s.len() > 0 && (s[0] == '+' || s[0] == '-') {
        if all_digits(s.drop_first()) {
            if s[0] == '-' {
                Some(-digits_value(s.drop_first()))
            } else {
                Some(digits_value(s.drop_first()))
            }
        } else {
            None
        }
    } else if all_digits(s) {
        Some(digits_value(s))
    } else {
        None
    }
}

/// The 32-bit integer that `s` denotes, if it denotes one in range.
pub open spec fn i32_of_text(s: Seq<char>) -> Option<i32> {
    match int_of_text(s) {
        Some(n) => if i32::MIN <= n <= i32::MAX {
            Some(n as i32)
        } else {
            None
        },
        None => None,
    }
}

/// The boolean that `s` spells.
pub open spec fn bool_of_text(s: Seq<char>) -> Option<bool> {
    if s == "true"@ {
        Some(true)
    } else if s == "false"@ {
        Some(false)
    } else {
        None
    }
}

/// The request after one more query pair, or why the pair is refused.
/// A parameter given again replaces what it gave before.
pub open spec fn apply_pair(r: RequestView, name: Seq<char>, value: Seq<char>) -> Result<RequestView, DecodeErrorView> {
    let bad = DecodeErrorView::InvalidValue(name, value);
    if name == "list-type"@ {
        Ok(r)
    } else if name == "bucket"@ {
        Ok(RequestView { bucket: Some(value), ..r })
    } else if name == "delimiter"@ {
        Ok(RequestView { delimiter: Some(value), ..r })
    } else if name == "encoding-type"@ {
        if value == "url"@ {
            Ok(RequestView { encoding_type: Some(EncodingType::Url), ..r })
        } else {
            Err(bad)
        }
    } else if name == "max-keys"@ {
        match i32_of_text(value) {
            Some(n) => Ok(RequestView { max_keys: Some(n), ..r }),
            None => Err(bad),
        }
    } else if name == "prefix"@ {
        Ok(RequestView { prefix: Some(value), ..r })
    } else if name == "continuation-token"@ {
        Ok(RequestView { continuation_token: Some(value), ..r })
    } else if name == "fetch-owner"@ {
        match bool_of_text(value) {
            Some(b) => Ok(RequestView { fetch_owner: Some(b), ..r }),
            None => Err(bad),
        }
    } else if name == "start-after"@ {
        Ok(RequestView { start_after: Some(value), ..r })
    } else if name == "request-payer"@ {
        if value == "requester"@ {
            Ok(RequestView { request_payer: Some(RequestPayer::Requester), ..r })
        } else {
            Err(bad)
        }
    } else if name == "expected-bucket-owner"@ {
        Ok(RequestView { expected_bucket_owner: Some(value), ..r })
    } else {
        Err(DecodeErrorView::UnknownField(name))
    }
}

/// The request that a run of query pairs decodes to: the pairs applied in
/// order to the empty request, stopping at the first refused pair.
pub open spec fn decode_pairs(ps: Seq<(Seq<char>, Seq<char>)>) -> Result<RequestView, DecodeErrorView>
    decreases ps.len(),
{
    if ps.len() == 0 {
        Ok(empty_request())
    } else {
        match decode_pairs(ps.drop_last()) {
            Err(e) => Err(e),
            Ok(r) => apply_pair(r, ps.last().0, ps.last().1),
        }
    }
}

/// Query pairs as character sequences.
pub open spec fn pairs_view(ps: Seq<(String, String)>) -> Seq<(Seq<char>, Seq<char>)> {
    ps.map_values(|p: (String, String)| (p.0@, p.1@))
}


/// The text that lists the registered names, as an error message gives them.
pub open spec fn expected_names() -> Seq<char> {
    "`list-type`, `bucket`, `delimiter`, `encoding-type`, `max-keys`, `prefix`, `continuation-token`, `fetch-owner`, `start-after`, `request-payer`, `expected-bucket-owner`"@
}

impl DecodeError {
    /// A human-readable description: the offending name, and the registered
    /// names or the offending text.
    pub fn message(&self) -> (r: String)
        ensures
            match self@ {
                DecodeErrorView::UnknownField(n) => r@ == "unknown field `"@ + n + "`, expected one of "@
                    + expected_names(),
                DecodeErrorView::InvalidValue(n, v) => r@ == "invalid value `"@ + v + "` for `"@ + n + "`"@,
            },
    {
        match self {
            DecodeError::UnknownField { name } => {
                let mut m = String::from_str("unknown field `");
                m.append(name.as_str());
                m.append("`, expected one of ");
                m.append("`list-type`, `bucket`, `delimiter`, `encoding-type`, `max-keys`, `prefix`, `continuation-token`, `fetch-owner`, `start-after`, `request-payer`, `expected-bucket-owner`");
                m
            },
            DecodeError::InvalidValue { name, value } => {
                let mut m = String::from_str("invalid value `");
                m.append(value.as_str());
                m.append("` for `");
                m.append(name.as_str());
                m.append("`");
                m
            },
        }
    }
}

/// Whether two texts are the same characters.
fn text_eq(s: &str, t: &str) -> (r: bool)
    ensures
        r == (s@ == t@),
{
    let n = s.unicode_len();
    if n != t.unicode_len() {
        return false;
    }
    let mut i: usize = 0;
    while i < n
        invariant
            n == s@.len(),
            n == t@.len(),
            i <= n,
            forall|j: int| 0 <= j < i ==> s@[j] == t@[j],
        decreases n - i,
    {
        if s.get_char(i) != t.get_char(i) {
            return false;
        }
        i = i + 1;
    }
    assert(s@ =~= t@);
    true
}

/// One more digit shifts the value by one place.
proof fn lemma_digits_value_push(x: Seq<char>, c: char)
    ensures
        digits_value(x.push(c)) == digits_value(x) * 10 + (c as int - '0' as int),
{
    assert(x.push(c).drop_last() =~= x);
}

/// Digits denote a natural number.
proof fn lemma_digits_value_nonneg(x: Seq<char>)
    requires
        forall|i: int| 0 <= i < x.len() ==> is_digit(#[trigger] x[i]),
    ensures
        digits_value(x) >= 0,
    decreases x.len(),
{
    if x.len() > 0 {
        lemma_digits_value_nonneg(x.drop_last());
    }
}

/// Reads a 32-bit integer: decimal digits with an optional leading sign.
pub fn parse_i32(s: &str) -> (r: Option<i32>)
    ensures
        r == i32_of_text(s@),
{
    let n = s.unicode_len();
    if n == 0 {
        return None;
    }
    let c0 = s.get_char(0);
    let signed = c0 == '+' || c0 == '-';
    let start: usize = if signed { 1 } else { 0 };
    if start == n {
        assert(!all_digits(s@.drop_first()));
        return None;
    }
    let ghost d = s@.subrange(start as int, n as int);
    proof {
        if signed {
            assert(d =~= s@.drop_first());
        } else {
            assert(d =~= s@);
        }
    }
    let mut acc: i64 = 0;
    let mut big = false;
    let mut i: usize = start;
    assert(s@.subrange(start as int, start as int) =~= Seq::<char>::empty());
    while i < n
        invariant
            n == s@.len(),
            start <= i <= n,
            s@[0] == c0,
            signed == (c0 == '+' || c0 == '-'),
            start == if signed { 1usize } else { 0usize },
            d == s@.subrange(start as int, n as int),
            forall|k: int| start <= k < i ==> is_digit(#[trigger] s@[k]),
            !big ==> acc == digits_value(s@.subrange(start as int, i as int)) && 0 <= acc <= 2147483648,
            big ==> digits_value(s@.subrange(start as int, i as int)) > 2147483648,
        decreases n - i,
    {
        let c = s.get_char(i);
        let ghost prev = s@.subrange(start as int, i as int);
        assert(s@.subrange(start as int, i as int + 1) =~= prev.push(c));
        if !('0' <= c && c <= '9') {
            assert(d[i - start] == s@[i as int]);
            assert(!all_digits(d));
            proof {
                if !signed {
                    assert(!(s@[0] == '+' || s@[0] == '-'));
                }
            }
            return None;
        }
        let dv: i64 = (c as u32 - '0' as u32) as i64;
        proof {
            lemma_digits_value_push(prev, c);
            assert forall|k: int| 0 <= k < prev.len() implies is_digit(#[trigger] prev[k]) by {
                assert(prev[k] == s@[start + k]);
            }
            lemma_digits_value_nonneg(prev);
        }
        if !big {
            acc = acc * 10 + dv;
            if acc > 2147483648 {
                big = true;
            }
        } else {
            assert(digits_value(prev.push(c)) > 2147483648) by (nonlinear_arith)
                requires
                    digits_value(prev) > 2147483648,
                    digits_value(prev.push(c)) == digits_value(prev) * 10 + (c as int - '0' as int),
                    c as int - '0' as int >= 0,
            ;
        }
        i = i + 1;
    }
    assert(s@.subrange(start as int, n as int) == d);
    assert(all_digits(d)) by {
        assert forall|k: int| 0 <= k < d.len() implies is_digit(#[trigger] d[k]) by {
            assert(d[k] == s@[start + k]);
        }
    }
    if big {
        return None;
    }
    let v: i64 = if c0 == '-' { -acc } else { acc };
    if v > 2147483647 {
        None
    } else {
        Some(v as i32)
    }
}

/// Reads `true` or `false`.
pub fn parse_bool(s: &str) -> (r: Option<bool>)
    ensures
        r == bool_of_text(s@),
{
    if text_eq(s, "true") {
        Some(true)
    } else if text_eq(s, "false") {
        Some(false)
    } else {
        None
    }
}


impl ListBucketRequest {
    /// The request with no parameter set.
    pub fn new() -> (r: Self)
        ensures
            r@ == empty_request(),
    {
        ListBucketRequest {
            bucket: None,
            delimiter: None,
            encoding_type: None,
            max_keys: None,
            prefix: None,
            continuation_token: None,
            fetch_owner: None,
            start_after: None,
            request_payer: None,
            expected_bucket_owner: None,
        }
    }

    /// Applies one query pair: the value is read as the named parameter's
    /// type and replaces what that parameter held.
    pub fn apply(&mut self, name: &String, value: &String) -> (r: Result<(), DecodeError>)
        ensures
            match apply_pair(old(self)@, name@, value@) {
                Ok(v) => r is Ok && final(self)@ == v,
                Err(e) => r is Err && r->Err_0@ == e,
            },
    {
        let n = name.as_str();
        let v = value.as_str();
        if text_eq(n, "list-type") {
            Ok(())
        } else if text_eq(n, "bucket") {
            self.bucket = Some(value.clone());
            Ok(())
        } else if text_eq(n, "delimiter") {
            self.delimiter = Some(value.clone());
            Ok(())
        } else if text_eq(n, "encoding-type") {
            if text_eq(v, "url") {
                self.encoding_type = Some(EncodingType::Url);
                Ok(())
            } else {
                Err(DecodeError::InvalidValue { name: name.clone(), value: value.clone() })
            }
        } else if text_eq(n, "max-keys") {
            match parse_i32(v) {
                Some(k) => {
                    self.max_keys = Some(k);
                    Ok(())
                },
                None => Err(DecodeError::InvalidValue { name: name.clone(), value: value.clone() }),
            }
        } else if text_eq(n, "prefix") {
            self.prefix = Some(value.clone());
            Ok(())
        } else if text_eq(n, "continuation-token") {
            self.continuation_token = Some(value.clone());
            Ok(())
        } else if text_eq(n, "fetch-owner") {
            match parse_bool(v) {
                Some(b) => {
                    self.fetch_owner = Some(b);
                    Ok(())
                },
                None => Err(DecodeError::InvalidValue { name: name.clone(), value: value.clone() }),
            }
        } else if text_eq(n, "start-after") {
            self.start_after = Some(value.clone());
            Ok(())
        } else if text_eq(n, "request-payer") {
            if text_eq(v, "requester") {
                self.request_payer = Some(RequestPayer::Requester);
                Ok(())
            } else {
                Err(DecodeError::InvalidValue { name: name.clone(), value: value.clone() })
            }
        } else if text_eq(n, "expected-bucket-owner") {
            self.expected_bucket_owner = Some(value.clone());
            Ok(())
        } else {
            Err(DecodeError::UnknownField { name: name.clone() })
        }
    }

    /// Decodes query pairs in order into a request. An unknown name or a
    /// value that cannot be read fails the whole decoding; a parameter given
    /// twice keeps its last value.
    pub fn decode(pairs: &[(String, String)]) -> (r: Result<Self, DecodeError>)
        ensures
            match decode_pairs(pairs_view(pairs@)) {
                Ok(v) => r is Ok && r->Ok_0@ == v,
                Err(e) => r is Err && r->Err_0@ == e,
            },
    {
        let ghost ps = pairs_view(pairs@);
        let mut req = ListBucketRequest::new();
        let mut i: usize = 0;
        assert(ps.take(0) =~= Seq::<(Seq<char>, Seq<char>)>::empty());
        while i < pairs.len()
            invariant
                ps == pairs_view(pairs@),
                ps.len() == pairs@.len(),
                i <= pairs@.len(),
                decode_pairs(ps.take(i as int)) == Ok::<RequestView, DecodeErrorView>(req@),
            decreases pairs@.len() - i,
        {
            assert(ps.take(i as int + 1).drop_last() =~= ps.take(i as int));
            assert(ps.take(i as int + 1).last() == (pairs@[i as int].0@, pairs@[i as int].1@));
            let r = req.apply(&pairs[i].0, &pairs[i].1);
            match r {
                Err(e) => {
                    proof {
                        lemma_decode_error_persists(ps, i as int + 1);
                    }
                    return Err(e);
                },
                Ok(()) => {},
            }
            i = i + 1;
        }
        assert(ps.take(ps.len() as int) =~= ps);
        Ok(req)
    }
}

/// Once a prefix of the pairs is refused, the whole run is refused the same way.
pub(crate) proof fn lemma_decode_error_persists(ps: Seq<(Seq<char>, Seq<char>)>, j: int)
    requires
        0 <= j <= ps.len(),
        decode_pairs(ps.take(j)) is Err,
    ensures
        decode_pairs(ps) == decode_pairs(ps.take(j)),
    decreases ps.len() - j,
{
    if j < ps.len() {
        assert(ps.take(j + 1).drop_last() =~= ps.take(j));
        lemma_decode_error_persists(ps, j + 1);
    } else {
        assert(ps.take(j) =~= ps);
    }
}

} // verus!
