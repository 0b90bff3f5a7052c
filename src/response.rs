//! The listing result and the shape it takes as an XML response.
use vstd::prelude::*;
use crate::request::{opt_view, EncodingType};
use crate::text::{bool_text, escaped, int_text};
use crate::value::{Field, Unsupported, Value};
use crate::xml::{chain, element, to_xml, wrap, xml_of, xml_of_field, xml_of_fields, xml_of_list, Error};
use vstd::string::StrSliceExecFns;
use vstd::utf8::encode_utf8;

verus! {

/// The RFC 3339 text of the instant `seconds` + `nanos` / 10^9 after the
/// Unix epoch, or `None` where that format cannot write it.
pub uninterp spec fn rfc3339_text(seconds: int, nanos: int) -> Option<Seq<char>>;

/// Relies on `aws_smithy_types::DateTime::fmt` with `Format::DateTime`: its
/// text is determined by the instant, and it fails only for instants that
/// the format cannot write. `from_secs_and_nanos` panics from 10^9 nanoseconds
/// on, which `requires` excludes.
#[verifier::external_body]
fn format_date_time(seconds: i64, nanos: u32) -> (r: Result<String, String>)
    requires
        nanos < 1_000_000_000,
    ensures
        r is Ok <==> rfc3339_text(seconds as int, nanos as int) is Some,
        r is Ok ==> rfc3339_text(seconds as int, nanos as int) == Some(r->Ok_0@),
{
    let t = aws_smithy_types::DateTime::from_secs_and_nanos(seconds, nanos);
    match t.fmt(aws_smithy_types::date_time::Format::DateTime) {
        Ok(s) => Ok(s),
        Err(e) => Err(e.to_string()),
    }
}

/// An instant: whole seconds since the Unix epoch and the nanoseconds past them.
pub struct DateTime {
    seconds: i64,
    subsec_nanos: u32,
}

impl DateTime {
    #[verifier::type_invariant]
    spec fn inv(&self) -> bool {
        self.subsec_nanos < 1_000_000_000
    }

    /// Seconds since the Unix epoch.
    pub closed spec fn secs(&self) -> int {
        self.seconds as int
    }

    /// Nanoseconds past the second, below 10^9.
    pub closed spec fn nanos(&self) -> int {
        self.subsec_nanos as int
    }

    /// The instant `seconds` + `subsec_nanos` / 10^9; `None` unless
    /// `subsec_nanos` is below 10^9.
    pub fn new(seconds: i64, subsec_nanos: u32) -> (r: Option<DateTime>)
        ensures
            r is Some <==> subsec_nanos < 1_000_000_000,
            r is Some ==> r->Some_0.secs() == seconds && r->Some_0.nanos() == subsec_nanos,
    {
        if subsec_nanos < 1_000_000_000 {
            Some(DateTime { seconds, subsec_nanos })
        } else {
            None
        }
    }

    /// The instant `seconds` after the Unix epoch.
    pub fn from_secs(seconds: i64) -> (r: DateTime)
        ensures
            r.secs() == seconds,
            r.nanos() == 0,
    {
        DateTime { seconds, subsec_nanos: 0 }
    }

    pub fn seconds(&self) -> (r: i64)
        ensures
            r == self.secs(),
    {
        self.seconds
    }

    pub fn subsec_nanos(&self) -> (r: u32)
        ensures
            r == self.nanos(),
            r < 1_000_000_000,
    {
        proof {
            use_type_invariant(self);
        }
        self.subsec_nanos
    }
}

/// The owner of an object.
pub struct Owner {
    pub display_name: Option<String>,
    pub id: Option<String>,
}

/// One object of a listing.
pub struct Object {
    pub key: Option<String>,
    pub last_modified: Option<DateTime>,
    pub e_tag: Option<String>,
    /// Names of the checksum algorithms, in order.
    pub checksum_algorithm: Vec<String>,
    pub size: Option<i64>,
    pub storage_class: Option<String>,
    pub owner: Option<Owner>,
}

/// The result of listing one directory as a bucket. Objects and common
/// prefixes come in the order they are to be written.
pub struct ListBucketResult {
    pub is_truncated: bool,
    pub contents: Vec<Object>,
    pub name: String,
    pub prefix: String,
    pub delimiter: String,
    pub max_keys: i32,
    pub common_prefixes: Vec<String>,
    pub encoding_type: Option<EncodingType>,
    pub key_count: i32,
    pub continuation_token: Option<String>,
    pub next_continuation_token: Option<String>,
    pub start_after: Option<String>,
}

/// An element holding escaped text.
pub open spec fn text_element(n: Seq<char>, t: Seq<char>) -> Seq<char> {
    element(n, escaped(t))
}

/// A text element when the text is there, nothing otherwise.
pub open spec fn optional_element(n: Seq<char>, o: Option<Seq<char>>) -> Seq<char> {
    match o {
        Some(t) => text_element(n, t),
        None => Seq::empty(),
    }
}

/// An integer element when the integer is there, nothing otherwise.
pub open spec fn optional_int_element(n: Seq<char>, o: Option<i64>) -> Seq<char> {
    match o {
        Some(i) => element(n, int_text(i as int)),
        None => Seq::empty(),
    }
}

/// One `ChecksumAlgorithm` element per name, in order.
pub open spec fn checksums_xml(cs: Seq<String>) -> Seq<char>
    decreases cs.len(),
{
    if cs.len() == 0 {
        Seq::empty()
    } else {
        checksums_xml(cs.drop_last()) + text_element("ChecksumAlgorithm"@, cs.last()@)
    }
}

/// The `Owner` element, when there is an owner.
pub open spec fn owner_xml(o: Option<Owner>) -> Seq<char> {
    match o {
        Some(w) => element(
            "Owner"@,
            optional_element("DisplayName"@, opt_view(w.display_name)) + optional_element("ID"@, opt_view(w.id)),
        ),
        None => Seq::empty(),
    }
}

/// The `LastModified` element, or `None` where the instant cannot be written.
pub open spec fn last_modified_xml(d: Option<DateTime>) -> Option<Seq<char>> {
    match d {
        None => Some(Seq::empty()),
        Some(t) => match rfc3339_text(t.secs(), t.nanos()) {
            Some(x) => Some(text_element("LastModified"@, x)),
            None => None,
        },
    }
}

/// The `Contents` element of one object, given the text of its
/// `LastModified` element.
pub open spec fn contents_xml(o: Object, lm: Seq<char>) -> Seq<char> {
    element(
        "Contents"@,
        optional_element("Key"@, opt_view(o.key)) + lm + optional_element("ETag"@, opt_view(o.e_tag))
            + checksums_xml(o.checksum_algorithm@) + optional_int_element("Size"@, o.size)
            + optional_element("StorageClass"@, opt_view(o.storage_class)) + owner_xml(o.owner),
    )
}

/// The `Contents` element of one object.
pub open spec fn object_xml(o: Object) -> Option<Seq<char>> {
    match last_modified_xml(o.last_modified) {
        None => None,
        Some(lm) => Some(contents_xml(o, lm)),
    }
}

/// The `Contents` elements of the objects, side by side in order.
pub open spec fn objects_xml(os: Seq<Object>) -> Option<Seq<char>>
    decreases os.len(),
{
    if os.len() == 0 {
        Some(Seq::empty())
    } else {
        match (objects_xml(os.drop_last()), object_xml(os.last())) {
            (Some(a), Some(b)) => Some(a + b),
            _ => None,
        }
    }
}

/// The `CommonPrefixes` element of one prefix.
pub open spec fn common_prefix_xml(p: Seq<char>) -> Seq<char> {
    element("CommonPrefixes"@, text_element("Prefix"@, p))
}

/// The `CommonPrefixes` elements, side by side in order.
pub open spec fn prefixes_xml(ps: Seq<String>) -> Seq<char>
    decreases ps.len(),
{
    if ps.len() == 0 {
        Seq::empty()
    } else {
        prefixes_xml(ps.drop_last()) + common_prefix_xml(ps.last()@)
    }
}

/// The `EncodingType` element, when there is one.
pub open spec fn encoding_type_xml(e: Option<EncodingType>) -> Seq<char> {
    match e {
        Some(EncodingType::Url) => text_element("EncodingType"@, "url"@),
        None => Seq::empty(),
    }
}

/// The whole listing response, or `None` where an object's instant cannot be written.
pub open spec fn listing_xml(r: ListBucketResult) -> Option<Seq<char>> {
    match objects_xml(r.contents@) {
        None => None,
        Some(cx) => Some(element(
            "ListBucketResult"@,
            element("IsTruncated"@, bool_text(r.is_truncated)) + cx + text_element("Name"@, r.name@)
                + text_element("Prefix"@, r.prefix@) + text_element("Delimiter"@, r.delimiter@)
                + element("MaxKeys"@, int_text(r.max_keys as int)) + prefixes_xml(r.common_prefixes@)
                + encoding_type_xml(r.encoding_type) + element("KeyCount"@, int_text(r.key_count as int))
                + optional_element("ContinuationToken"@, opt_view(r.continuation_token))
                + optional_element("NextContinuationToken"@, opt_view(r.next_continuation_token))
                + optional_element("StartAfter"@, opt_view(r.start_after)),
        )),
    }
}


/// Appends a field to a struct's fields.
pub(crate) fn push_field(fs: &mut Vec<Field>, f: Field)
    ensures
        final(fs)@ == old(fs)@.push(f),
        xml_of_fields(final(fs)@) == chain(xml_of_fields(old(fs)@), xml_of_field(f)),
{
    fs.push(f);
    assert(fs@.drop_last() =~= old(fs)@);
}

/// Appends a value to a run of values.
fn push_value(vs: &mut Vec<Value>, v: Value)
    ensures
        final(vs)@ == old(vs)@.push(v),
        xml_of_list(final(vs)@) == chain(xml_of_list(old(vs)@), xml_of(v)),
{
    vs.push(v);
    assert(vs@.drop_last() =~= old(vs)@);
}

/// A field holding text.
fn text_field(name: &str, t: &String) -> (f: Field)
    ensures
        xml_of_field(f) == Ok::<Seq<char>, Unsupported>(text_element(name@, t@)),
{
    Field::Named(String::from_str(name), Value::Str(t.clone()))
}

/// A field holding text that may be absent.
pub(crate) fn optional_text_field(name: &str, o: &Option<String>) -> (f: Field)
    ensures
        xml_of_field(f) == Ok::<Seq<char>, Unsupported>(optional_element(name@, opt_view(*o))),
{
    match o {
        Some(t) => text_field(name, t),
        None => Field::Named(String::from_str(name), Value::Absent),
    }
}

/// A field holding an integer.
fn int_field(name: &str, i: i64) -> (f: Field)
    ensures
        xml_of_field(f) == Ok::<Seq<char>, Unsupported>(element(name@, int_text(i as int))),
{
    Field::Named(String::from_str(name), Value::Int(i))
}

/// A field holding an integer that may be absent.
fn optional_int_field(name: &str, o: Option<i64>) -> (f: Field)
    ensures
        xml_of_field(f) == Ok::<Seq<char>, Unsupported>(optional_int_element(name@, o)),
{
    match o {
        Some(i) => int_field(name, i),
        None => Field::Named(String::from_str(name), Value::Absent),
    }
}

impl Owner {
    /// The `Owner` struct with its optional `DisplayName` and `ID`.
    fn to_value(&self) -> (r: Value)
        ensures
            xml_of(r) == Ok::<Seq<char>, Unsupported>(owner_xml(Some(*self))),
    {
        let mut fs: Vec<Field> = Vec::new();
        push_field(&mut fs, optional_text_field("DisplayName", &self.display_name));
        push_field(&mut fs, optional_text_field("ID", &self.id));
        let ghost body = optional_element("DisplayName"@, opt_view(self.display_name))
            + optional_element("ID"@, opt_view(self.id));
        assert(xml_of_fields(fs@) == Ok::<Seq<char>, Unsupported>(body)) by {
            assert(Seq::<char>::empty() + optional_element("DisplayName"@, opt_view(self.display_name))
                =~= optional_element("DisplayName"@, opt_view(self.display_name)));
        }
        Value::Struct(String::from_str("Owner"), fs)
    }
}

impl Object {
    /// The `Contents` struct of this object, with `last_modified` as the
    /// already formatted text of its instant.
    pub fn to_value_with_last_modified(&self, last_modified: &Option<String>) -> (r: Value)
        ensures
            xml_of(r) == Ok::<Seq<char>, Unsupported>(
                contents_xml(*self, optional_element("LastModified"@, opt_view(*last_modified))),
            ),
    {
        let mut fs: Vec<Field> = Vec::new();
        push_field(&mut fs, optional_text_field("Key", &self.key));
        push_field(&mut fs, optional_text_field("LastModified", last_modified));
        let ghost key = optional_element("Key"@, opt_view(self.key));
        let ghost lm = optional_element("LastModified"@, opt_view(*last_modified));
        assert(Seq::<char>::empty() + key =~= key);
        assert(xml_of_fields(fs@) == Ok::<Seq<char>, Unsupported>(key + lm));
        push_field(&mut fs, optional_text_field("ETag", &self.e_tag));
        let ghost base = key + lm + optional_element("ETag"@, opt_view(self.e_tag));
        let cs = &self.checksum_algorithm;
        let mut i: usize = 0;
        assert(cs@.take(0) =~= Seq::<String>::empty());
        assert(base + checksums_xml(cs@.take(0)) =~= base);
        while i < cs.len()
            invariant
                i <= cs@.len(),
                cs == &self.checksum_algorithm,
                xml_of_fields(fs@) == Ok::<Seq<char>, Unsupported>(base + checksums_xml(cs@.take(i as int))),
            decreases cs@.len() - i,
        {
            push_field(&mut fs, text_field("ChecksumAlgorithm", &cs[i]));
            assert(cs@.take(i as int + 1).drop_last() =~= cs@.take(i as int));
            assert(base + checksums_xml(cs@.take(i as int + 1)) =~= base + checksums_xml(cs@.take(i as int))
                + text_element("ChecksumAlgorithm"@, cs@[i as int]@));
            i = i + 1;
        }
        assert(cs@.take(cs@.len() as int) =~= cs@);
        push_field(&mut fs, optional_int_field("Size", self.size));
        push_field(&mut fs, optional_text_field("StorageClass", &self.storage_class));
        let ghost before_owner = base + checksums_xml(cs@) + optional_int_element("Size"@, self.size)
            + optional_element("StorageClass"@, opt_view(self.storage_class));
        assert(xml_of_fields(fs@) == Ok::<Seq<char>, Unsupported>(before_owner));
        match &self.owner {
            Some(w) => {
                push_field(&mut fs, Field::Spliced(w.to_value()));
            },
            None => {
                assert(before_owner + owner_xml(self.owner) =~= before_owner);
            },
        }
        assert(xml_of_fields(fs@) == Ok::<Seq<char>, Unsupported>(before_owner + owner_xml(self.owner)));
        Value::Struct(String::from_str("Contents"), fs)
    }

    /// The `Contents` struct of this object; fails where its instant
    /// cannot be written.
    pub fn to_value(&self) -> (r: Result<Value, Error>)
        ensures
            match object_xml(*self) {
                Some(t) => r is Ok && xml_of(r->Ok_0) == Ok::<Seq<char>, Unsupported>(t),
                None => r is Err && r->Err_0 is Custom,
            },
    {
        let last_modified = match &self.last_modified {
            Some(d) => match format_date_time(d.seconds(), d.subsec_nanos()) {
                Ok(t) => Some(t),
                Err(m) => {
                    return Err(Error::Custom(m));
                },
            },
            None => None,
        };
        Ok(self.to_value_with_last_modified(&last_modified))
    }
}

/// Once a prefix of the objects cannot be written, none of them can.
proof fn lemma_objects_none_persists(os: Seq<Object>, j: int)
    requires
        0 <= j <= os.len(),
        objects_xml(os.take(j)) is None,
    ensures
        objects_xml(os) is None,
    decreases os.len() - j,
{
    if j < os.len() {
        assert(os.take(j + 1).drop_last() =~= os.take(j));
        lemma_objects_none_persists(os, j + 1);
    } else {
        assert(os.take(j) =~= os);
    }
}

/// The `CommonPrefixes` struct of one prefix.
fn common_prefix_value(p: &String) -> (r: Value)
    ensures
        xml_of(r) == Ok::<Seq<char>, Unsupported>(common_prefix_xml(p@)),
{
    let mut fs: Vec<Field> = Vec::new();
    push_field(&mut fs, text_field("Prefix", p));
    assert(Seq::<char>::empty() + text_element("Prefix"@, p@) =~= text_element("Prefix"@, p@));
    Value::Struct(String::from_str("CommonPrefixes"), fs)
}

/// The objects' `Contents` structs as one run of values; fails where an
/// object's instant cannot be written.
fn contents_value(os: &Vec<Object>) -> (r: Result<Value, Error>)
    ensures
        match objects_xml(os@) {
            Some(t) => r is Ok && xml_of(r->Ok_0) == Ok::<Seq<char>, Unsupported>(t),
            None => r is Err && r->Err_0 is Custom,
        },
{
    let mut items: Vec<Value> = Vec::new();
    let mut i: usize = 0;
    assert(os@.take(0) =~= Seq::<Object>::empty());
    while i < os.len()
        invariant
            i <= os@.len(),
            objects_xml(os@.take(i as int)) is Some,
            xml_of_list(items@) == Ok::<Seq<char>, Unsupported>(objects_xml(os@.take(i as int))->Some_0),
        decreases os@.len() - i,
    {
        assert(os@.take(i as int + 1).drop_last() =~= os@.take(i as int));
        assert(os@.take(i as int + 1).last() == os@[i as int]);
        match os[i].to_value() {
            Ok(v) => push_value(&mut items, v),
            Err(e) => {
                proof {
                    lemma_objects_none_persists(os@, i as int + 1);
                }
                return Err(e);
            },
        }
        i = i + 1;
    }
    assert(os@.take(os@.len() as int) =~= os@);
    Ok(Value::Sequence(items))
}

/// The prefixes' `CommonPrefixes` structs as one run of values.
fn prefixes_value(ps: &Vec<String>) -> (r: Value)
    ensures
        xml_of(r) == Ok::<Seq<char>, Unsupported>(prefixes_xml(ps@)),
{
    let mut cps: Vec<Value> = Vec::new();
    let mut j: usize = 0;
    assert(ps@.take(0) =~= Seq::<String>::empty());
    while j < ps.len()
        invariant
            j <= ps@.len(),
            xml_of_list(cps@) == Ok::<Seq<char>, Unsupported>(prefixes_xml(ps@.take(j as int))),
        decreases ps@.len() - j,
    {
        assert(ps@.take(j as int + 1).drop_last() =~= ps@.take(j as int));
        assert(ps@.take(j as int + 1).last() == ps@[j as int]);
        push_value(&mut cps, common_prefix_value(&ps[j]));
        j = j + 1;
    }
    assert(ps@.take(ps@.len() as int) =~= ps@);
    Value::Sequence(cps)
}

/// The `EncodingType` field: the name of the encoding as plain text.
fn encoding_type_field(e: Option<EncodingType>) -> (f: Field)
    ensures
        xml_of_field(f) == Ok::<Seq<char>, Unsupported>(encoding_type_xml(e)),
{
    let v = match e {
        Some(EncodingType::Url) => Value::UnitVariant(String::from_str("url")),
        None => Value::Absent,
    };
    Field::Named(String::from_str("EncodingType"), v)
}

impl ListBucketResult {
    /// The `ListBucketResult` struct: the flag, the objects spliced in as
    /// sibling `Contents`, the names, the limits, the prefixes spliced in as
    /// sibling `CommonPrefixes`, then the optional tokens. Fails where an
    /// object's instant cannot be written.
    #[verifier::rlimit(30)]
    pub fn to_value(&self) -> (r: Result<Value, Error>)
        ensures
            match listing_xml(*self) {
                Some(t) => r is Ok && xml_of(r->Ok_0) == Ok::<Seq<char>, Unsupported>(t),
                None => r is Err && r->Err_0 is Custom,
            },
    {
        let contents = contents_value(&self.contents)?;
        let ghost cx = objects_xml(self.contents@)->Some_0;
        let mut fs: Vec<Field> = Vec::new();
        push_field(&mut fs, Field::Named(String::from_str("IsTruncated"), Value::Bool(self.is_truncated)));
        let ghost mut acc: Seq<char> = element("IsTruncated"@, bool_text(self.is_truncated));
        assert(Seq::<char>::empty() + acc =~= acc);
        push_field(&mut fs, Field::Spliced(contents));
        proof {
            acc = acc + cx;
        }
        assert(xml_of_fields(fs@) == Ok::<Seq<char>, Unsupported>(acc));
        push_field(&mut fs, text_field("Name", &self.name));
        proof {
            acc = acc + text_element("Name"@, self.name@);
        }
        assert(xml_of_fields(fs@) == Ok::<Seq<char>, Unsupported>(acc));
        push_field(&mut fs, text_field("Prefix", &self.prefix));
        proof {
            acc = acc + text_element("Prefix"@, self.prefix@);
        }
        assert(xml_of_fields(fs@) == Ok::<Seq<char>, Unsupported>(acc));
        push_field(&mut fs, text_field("Delimiter", &self.delimiter));
        proof {
            acc = acc + text_element("Delimiter"@, self.delimiter@);
        }
        assert(xml_of_fields(fs@) == Ok::<Seq<char>, Unsupported>(acc));
        push_field(&mut fs, int_field("MaxKeys", self.max_keys as i64));
        proof {
            acc = acc + element("MaxKeys"@, int_text(self.max_keys as int));
        }
        assert(xml_of_fields(fs@) == Ok::<Seq<char>, Unsupported>(acc));
        assert(xml_of_fields(fs@) == Ok::<Seq<char>, Unsupported>(acc));
        push_field(&mut fs, Field::Spliced(prefixes_value(&self.common_prefixes)));
        proof {
            acc = acc + prefixes_xml(self.common_prefixes@);
        }
        assert(xml_of_fields(fs@) == Ok::<Seq<char>, Unsupported>(acc));
        push_field(&mut fs, encoding_type_field(self.encoding_type));
        proof {
            acc = acc + encoding_type_xml(self.encoding_type);
        }
        assert(xml_of_fields(fs@) == Ok::<Seq<char>, Unsupported>(acc));
        push_field(&mut fs, int_field("KeyCount", self.key_count as i64));
        proof {
            acc = acc + element("KeyCount"@, int_text(self.key_count as int));
        }
        assert(xml_of_fields(fs@) == Ok::<Seq<char>, Unsupported>(acc));
        push_field(&mut fs, optional_text_field("ContinuationToken", &self.continuation_token));
        proof {
            acc = acc + optional_element("ContinuationToken"@, opt_view(self.continuation_token));
        }
        assert(xml_of_fields(fs@) == Ok::<Seq<char>, Unsupported>(acc));
        push_field(&mut fs, optional_text_field("NextContinuationToken", &self.next_continuation_token));
        proof {
            acc = acc + optional_element("NextContinuationToken"@, opt_view(self.next_continuation_token));
        }
        assert(xml_of_fields(fs@) == Ok::<Seq<char>, Unsupported>(acc));
        push_field(&mut fs, optional_text_field("StartAfter", &self.start_after));
        proof {
            acc = acc + optional_element("StartAfter"@, opt_view(self.start_after));
        }
        assert(xml_of_fields(fs@) == Ok::<Seq<char>, Unsupported>(acc));
        assert(xml_of_fields(fs@) == Ok::<Seq<char>, Unsupported>(acc));
        let r = Value::Struct(String::from_str("ListBucketResult"), fs);
        assert(xml_of(r) == Ok::<Seq<char>, Unsupported>(listing_xml(*self)->Some_0));
        Ok(r)
    }

    /// The listing as one XML document, all or nothing.
    pub fn to_xml(&self) -> (r: Result<String, Error>)
        ensures
            match listing_xml(*self) {
                Some(t) => r is Ok && r->Ok_0@ == t,
                None => r is Err && r->Err_0 is Custom,
            },
    {
        let v = self.to_value()?;
        to_xml(&v)
    }

    /// The UTF-8 bytes of the listing's XML, all or nothing.
    pub fn to_bytes(&self) -> (r: Result<Vec<u8>, Error>)
        ensures
            match listing_xml(*self) {
                Some(t) => r is Ok && r->Ok_0@ == encode_utf8(t),
                None => r is Err && r->Err_0 is Custom,
            },
    {
        match self.to_xml() {
            Ok(s) => Ok(s.as_str().as_bytes_vec()),
            Err(e) => Err(e),
        }
    }
}

} // verus!
