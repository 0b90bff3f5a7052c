//! The XML encoder and the key resolver over the value tree.
use vstd::prelude::*;
use crate::text::{bool_text, char_string, decimal, escape_pcdata, escaped, int_text, write_i64, write_u64};
use crate::value::{Field, Unsupported, Value};
use vstd::string::StrSliceExecFns;
use vstd::utf8::encode_utf8;

verus! {

/// `<n>`
pub open spec fn open_tag(n: Seq<char>) -> Seq<char> {
    "<"@ + n + ">"@
}

/// `</n>`
pub open spec fn close_tag(n: Seq<char>) -> Seq<char> {
    "</"@ + n + ">"@
}

/// An element named `n` around `body`.
pub open spec fn element(n: Seq<char>, body: Seq<char>) -> Seq<char> {
    open_tag(n) + body + close_tag(n)
}

/// The text of `a` followed by that of `b`; the first failure wins.
pub open spec fn chain(
    a: Result<Seq<char>, Unsupported>,
    b: Result<Seq<char>, Unsupported>,
) -> Result<Seq<char>, Unsupported> {
    match a {
        Err(e) => Err(e),
        Ok(x) => match b {
            Err(e) => Err(e),
            Ok(y) => Ok(x + y),
        },
    }
}

/// The text of `r` inside an element named `n`.
pub open spec fn wrap(n: Seq<char>, r: Result<Seq<char>, Unsupported>) -> Result<Seq<char>, Unsupported> {
    match r {
        Err(e) => Err(e),
        Ok(t) => Ok(element(n, t)),
    }
}

/// The plain name that a key value reduces to.
pub open spec fn key_name(v: Value) -> Result<Seq<char>, Unsupported>
    decreases v,
{
    match v {
        Value::Bool(b) => Ok(bool_text(b)),
        Value::Int(i) => Ok(int_text(i as int)),
        Value::UInt(u) => Ok(decimal(u as nat)),
        Value::Char(c) => Ok(seq![c]),
        Value::Str(s) => Ok(s@),
        Value::UnitStruct(n) => Ok(n@),
        Value::UnitVariant(n) => Ok(n@),
        Value::Present(b) => key_name(*b),
        _ => Err(Unsupported::KeyType),
    }
}

/// The XML text of a value.
pub open spec fn xml_of(v: Value) -> Result<Seq<char>, Unsupported>
    decreases v,
{
    match v {
        Value::Bool(b) => Ok(bool_text(b)),
        Value::Int(i) => Ok(int_text(i as int)),
        Value::UInt(u) => Ok(decimal(u as nat)),
        Value::Char(c) => Ok(escaped(seq![c])),
        Value::Str(s) => Ok(escaped(s@)),
        Value::Bytes(_) => Err(Unsupported::DataType),
        Value::Unit => Ok(Seq::empty()),
        Value::Absent => Ok(Seq::empty()),
        Value::Present(b) => xml_of(*b),
        Value::UnitStruct(n) => Ok(element(n@, Seq::empty())),
        Value::UnitVariant(n) => Ok(escaped(n@)),
        Value::Newtype(n, b) => wrap(n@, xml_of(*b)),
        Value::Sequence(vs) => xml_of_list(vs@),
        Value::Mapping(es) => xml_of_entries(es@),
        Value::Struct(n, fs) => wrap(n@, xml_of_fields(fs@)),
    }
}

/// The XML text of values one after another.
pub open spec fn xml_of_list(vs: Seq<Value>) -> Result<Seq<char>, Unsupported>
    decreases vs,
{
    if vs.len() == 0 {
        Ok(Seq::empty())
    } else {
        chain(xml_of_list(vs.drop_last()), xml_of(vs.last()))
    }
}

/// One map entry: the value inside an element named by the key.
pub open spec fn xml_of_entry(e: (Value, Value)) -> Result<Seq<char>, Unsupported>
    decreases e,
{
    match key_name(e.0) {
        Err(k) => Err(k),
        Ok(n) => wrap(n, xml_of(e.1)),
    }
}

/// Map entries one after another.
pub open spec fn xml_of_entries(es: Seq<(Value, Value)>) -> Result<Seq<char>, Unsupported>
    decreases es,
{
    if es.len() == 0 {
        Ok(Seq::empty())
    } else {
        chain(xml_of_entries(es.drop_last()), xml_of_entry(es.last()))
    }
}

/// One struct field: nothing for an absent value, no wrapper when spliced.
pub open spec fn xml_of_field(f: Field) -> Result<Seq<char>, Unsupported>
    decreases f,
{
    match f {
        Field::Named(n, v) => if v is Absent {
            Ok(Seq::empty())
        } else {
            wrap(n@, xml_of(v))
        },
        Field::Spliced(v) => xml_of(v),
    }
}

/// Struct fields in declared order.
pub open spec fn xml_of_fields(fs: Seq<Field>) -> Result<Seq<char>, Unsupported>
    decreases fs,
{
    if fs.len() == 0 {
        Ok(Seq::empty())
    } else {
        chain(xml_of_fields(fs.drop_last()), xml_of_field(fs.last()))
    }
}

/// Appends the opening or the closing tag of `n`.
fn write_tag(out: &mut String, n: &String, closing: bool)
    ensures
        final(out)@ == old(out)@ + if closing { close_tag(n@) } else { open_tag(n@) },
{
    if closing {
        out.append("</");
    } else {
        out.append("<");
    }
    out.append(n.as_str());
    out.append(">");
    assert(out@ =~= old(out)@ + if closing { close_tag(n@) } else { open_tag(n@) });
}

/// Appends escaped character data.
fn write_text(out: &mut String, s: &str)
    ensures
        final(out)@ == old(out)@ + escaped(s@),
{
    let e = escape_pcdata(s);
    out.append(e.as_str());
}

/// Appends the text form of a boolean.
fn write_bool(out: &mut String, b: bool)
    ensures
        final(out)@ == old(out)@ + bool_text(b),
{
    proof {
        reveal_strlit("true");
        reveal_strlit("false");
    }
    if b {
        out.append("true");
    } else {
        out.append("false");
    }
}

/// The plain name that a key value reduces to: scalars in their text form,
/// unit structs and unit variants by name, a present optional by its content.
/// Every other shape fails with [`Unsupported::KeyType`].
pub fn key_to_string(v: &Value) -> (r: Result<String, Unsupported>)
    ensures
        match key_name(*v) {
            Ok(n) => r is Ok && r->Ok_0@ == n,
            Err(k) => r == Err::<String, Unsupported>(k),
        },
    decreases v,
{
    match v {
        Value::Bool(b) => {
            let mut s = String::new();
            write_bool(&mut s, *b);
            assert(s@ =~= bool_text(*b));
            Ok(s)
        },
        Value::Int(i) => {
            let mut s = String::new();
            write_i64(&mut s, *i);
            assert(s@ =~= int_text(*i as int));
            Ok(s)
        },
        Value::UInt(u) => {
            let mut s = String::new();
            write_u64(&mut s, *u);
            assert(s@ =~= decimal(*u as nat));
            Ok(s)
        },
        Value::Char(c) => Ok(char_string(*c)),
        Value::Str(s) => Ok(s.clone()),
        Value::UnitStruct(n) => Ok(n.clone()),
        Value::UnitVariant(n) => Ok(n.clone()),
        Value::Present(b) => key_to_string(b),
        _ => Err(Unsupported::KeyType),
    }
}

/// Appends the XML text of `v`; on failure, says which shape was refused.
fn write_value(out: &mut String, v: &Value) -> (r: Result<(), Unsupported>)
    ensures
        match xml_of(*v) {
            Ok(t) => r is Ok && final(out)@ == old(out)@ + t,
            Err(k) => r == Err::<(), Unsupported>(k),
        },
    decreases v,
{
    match v {
        Value::Bool(b) => {
            write_bool(out, *b);
            Ok(())
        },
        Value::Int(i) => {
            write_i64(out, *i);
            Ok(())
        },
        Value::UInt(u) => {
            write_u64(out, *u);
            Ok(())
        },
        Value::Char(c) => {
            let s = char_string(*c);
            write_text(out, s.as_str());
            Ok(())
        },
        Value::Str(s) => {
            write_text(out, s.as_str());
            Ok(())
        },
        Value::Bytes(_) => Err(Unsupported::DataType),
        Value::Unit => {
            assert(out@ =~= out@ + Seq::<char>::empty());
            Ok(())
        },
        Value::Absent => {
            assert(out@ =~= out@ + Seq::<char>::empty());
            Ok(())
        },
        Value::Present(b) => write_value(out, b),
        Value::UnitStruct(n) => {
            write_tag(out, n, false);
            write_tag(out, n, true);
            assert(out@ =~= old(out)@ + element(n@, Seq::empty()));
            Ok(())
        },
        Value::UnitVariant(n) => {
            write_text(out, n.as_str());
            Ok(())
        },
        Value::Newtype(n, b) => {
            write_tag(out, n, false);
            let r = write_value(out, b);
            if r.is_err() {
                return r;
            }
            write_tag(out, n, true);
            assert(out@ =~= old(out)@ + element(n@, xml_of(**b)->Ok_0));
            Ok(())
        },
        Value::Sequence(vs) => write_list(out, vs),
        Value::Mapping(es) => write_entries(out, es),
        Value::Struct(n, fs) => {
            write_tag(out, n, false);
            let r = write_fields(out, fs);
            if r.is_err() {
                return r;
            }
            write_tag(out, n, true);
            assert(out@ =~= old(out)@ + element(n@, xml_of_fields(fs@)->Ok_0));
            Ok(())
        },
    }
}

/// Appends the values of `vs` one after another.
fn write_list(out: &mut String, vs: &Vec<Value>) -> (r: Result<(), Unsupported>)
    ensures
        match xml_of_list(vs@) {
            Ok(t) => r is Ok && final(out)@ == old(out)@ + t,
            Err(k) => r == Err::<(), Unsupported>(k),
        },
    decreases vs,
{
    let ghost start = out@;
    let mut i: usize = 0;
    assert(vs@.take(0) =~= Seq::<Value>::empty());
    while i < vs.len()
        invariant
            i <= vs@.len(),
            xml_of_list(vs@.take(i as int)) is Ok,
            out@ == start + xml_of_list(vs@.take(i as int))->Ok_0,
        decreases vs@.len() - i,
    {
        assert(vs@.take(i as int + 1).drop_last() =~= vs@.take(i as int));
        assert(vs@.take(i as int + 1).last() == vs@[i as int]);
        let r = write_value(out, &vs[i]);
        if r.is_err() {
            proof {
                lemma_list_error_persists(vs@, i as int + 1);
            }
            return r;
        }
        i = i + 1;
        assert(out@ =~= start + xml_of_list(vs@.take(i as int))->Ok_0);
    }
    assert(vs@.take(vs@.len() as int) =~= vs@);
    Ok(())
}


/// Appends the map entries of `es` one after another.
fn write_entries(out: &mut String, es: &Vec<(Value, Value)>) -> (r: Result<(), Unsupported>)
    ensures
        match xml_of_entries(es@) {
            Ok(t) => r is Ok && final(out)@ == old(out)@ + t,
            Err(k) => r == Err::<(), Unsupported>(k),
        },
    decreases es,
{
    let ghost start = out@;
    let mut i: usize = 0;
    assert(es@.take(0) =~= Seq::<(Value, Value)>::empty());
    while i < es.len()
        invariant
            i <= es@.len(),
            xml_of_entries(es@.take(i as int)) is Ok,
            out@ == start + xml_of_entries(es@.take(i as int))->Ok_0,
        decreases es@.len() - i,
    {
        assert(es@.take(i as int + 1).drop_last() =~= es@.take(i as int));
        assert(es@.take(i as int + 1).last() == es@[i as int]);
        assert(xml_of_entries(es@.take(i as int + 1))
            == chain(xml_of_entries(es@.take(i as int)), xml_of_entry(es@[i as int])));
        let e = &es[i];
        assert(decreases_to!(es => es@[i as int]));
        let name = key_to_string(&e.0);
        match name {
            Err(k) => {
                proof {
                    lemma_entries_error_persists(es@, i as int + 1);
                }
                return Err(k);
            },
            Ok(name) => {
                write_tag(out, &name, false);
                let r = write_value(out, &e.1);
                if r.is_err() {
                    proof {
                        lemma_entries_error_persists(es@, i as int + 1);
                    }
                    return r;
                }
                write_tag(out, &name, true);
            },
        }
        i = i + 1;
        assert(out@ =~= start + xml_of_entries(es@.take(i as int))->Ok_0);
    }
    assert(es@.take(es@.len() as int) =~= es@);
    Ok(())
}

/// Appends the fields of a struct in declared order.
fn write_fields(out: &mut String, fs: &Vec<Field>) -> (r: Result<(), Unsupported>)
    ensures
        match xml_of_fields(fs@) {
            Ok(t) => r is Ok && final(out)@ == old(out)@ + t,
            Err(k) => r == Err::<(), Unsupported>(k),
        },
    decreases fs,
{
    let ghost start = out@;
    let mut i: usize = 0;
    assert(fs@.take(0) =~= Seq::<Field>::empty());
    while i < fs.len()
        invariant
            i <= fs@.len(),
            xml_of_fields(fs@.take(i as int)) is Ok,
            out@ == start + xml_of_fields(fs@.take(i as int))->Ok_0,
        decreases fs@.len() - i,
    {
        assert(fs@.take(i as int + 1).drop_last() =~= fs@.take(i as int));
        assert(fs@.take(i as int + 1).last() == fs@[i as int]);
        assert(xml_of_fields(fs@.take(i as int + 1))
            == chain(xml_of_fields(fs@.take(i as int)), xml_of_field(fs@[i as int])));
        assert(decreases_to!(fs => fs@[i as int]));
        let r = match &fs[i] {
            Field::Named(n, v) => {
                if matches!(v, Value::Absent) {
                    assert(out@ =~= out@ + Seq::<char>::empty());
                    Ok(())
                } else {
                    write_tag(out, n, false);
                    let r = write_value(out, v);
                    if r.is_ok() {
                        write_tag(out, n, true);
                    }
                    r
                }
            },
            Field::Spliced(v) => write_value(out, v),
        };
        if r.is_err() {
            proof {
                lemma_fields_error_persists(fs@, i as int + 1);
            }
            return r;
        }
        i = i + 1;
        assert(out@ =~= start + xml_of_fields(fs@.take(i as int))->Ok_0);
    }
    assert(fs@.take(fs@.len() as int) =~= fs@);
    Ok(())
}

/// Once a prefix of a run of values fails, the whole run fails the same way.
pub(crate) proof fn lemma_list_error_persists(vs: Seq<Value>, j: int)
    requires
        0 <= j <= vs.len(),
        xml_of_list(vs.take(j)) is Err,
    ensures
        xml_of_list(vs) == xml_of_list(vs.take(j)),
    decreases vs.len() - j,
{
    if j < vs.len() {
        assert(vs.take(j + 1).drop_last() =~= vs.take(j));
        lemma_list_error_persists(vs, j + 1);
    } else {
        assert(vs.take(j) =~= vs);
    }
}

/// Once a prefix of the entries fails, all of them fail the same way.
pub(crate) proof fn lemma_entries_error_persists(es: Seq<(Value, Value)>, j: int)
    requires
        0 <= j <= es.len(),
        xml_of_entries(es.take(j)) is Err,
    ensures
        xml_of_entries(es) == xml_of_entries(es.take(j)),
    decreases es.len() - j,
{
    if j < es.len() {
        assert(es.take(j + 1).drop_last() =~= es.take(j));
        lemma_entries_error_persists(es, j + 1);
    } else {
        assert(es.take(j) =~= es);
    }
}

/// Once a prefix of the fields fails, all of them fail the same way.
pub(crate) proof fn lemma_fields_error_persists(fs: Seq<Field>, j: int)
    requires
        0 <= j <= fs.len(),
        xml_of_fields(fs.take(j)) is Err,
    ensures
        xml_of_fields(fs) == xml_of_fields(fs.take(j)),
    decreases fs.len() - j,
{
    if j < fs.len() {
        assert(fs.take(j + 1).drop_last() =~= fs.take(j));
        lemma_fields_error_persists(fs, j + 1);
    } else {
        assert(fs.take(j) =~= fs);
    }
}


/// Why an encoding failed.
pub enum Error {
    /// A value of a shape that XML text cannot hold.
    UnsupportedType(Unsupported),
    /// A failure reported while a value was being prepared, with its message.
    Custom(String),
}

impl Error {
    /// A human-readable description of the failure.
    pub fn message(&self) -> (r: String)
        ensures
            match self {
                Error::UnsupportedType(Unsupported::DataType) => r@ == "unsupported data type"@,
                Error::UnsupportedType(Unsupported::KeyType) => r@ == "unsupported key type"@,
                Error::Custom(m) => r@ == m@,
            },
    {
        match self {
            Error::UnsupportedType(Unsupported::DataType) => String::from_str("unsupported data type"),
            Error::UnsupportedType(Unsupported::KeyType) => String::from_str("unsupported key type"),
            Error::Custom(m) => m.clone(),
        }
    }
}

/// Encodes `v` as one XML fragment, all or nothing: on failure no text is
/// handed out, only the kind of shape that was refused.
pub fn to_xml(v: &Value) -> (r: Result<String, Error>)
    ensures
        match xml_of(*v) {
            Ok(t) => r is Ok && r->Ok_0@ == t,
            Err(k) => r is Err && r->Err_0 == Error::UnsupportedType(k),
        },
{
    let mut out = String::new();
    match write_value(&mut out, v) {
        Ok(()) => {
            assert(out@ =~= xml_of(*v)->Ok_0);
            Ok(out)
        },
        Err(k) => Err(Error::UnsupportedType(k)),
    }
}

/// Encodes `v` as the UTF-8 bytes of its XML fragment, all or nothing.
pub fn to_bytes(v: &Value) -> (r: Result<Vec<u8>, Error>)
    ensures
        match xml_of(*v) {
            Ok(t) => r is Ok && r->Ok_0@ == encode_utf8(t),
            Err(k) => r is Err && r->Err_0 == Error::UnsupportedType(k),
        },
{
    match to_xml(v) {
        Ok(s) => Ok(s.as_str().as_bytes_vec()),
        Err(e) => Err(e),
    }
}

} // verus!
