//! Laws that relate the encoder's and the decoder's results across inputs.
use vstd::prelude::*;
use crate::request::{decode_pairs, lemma_decode_error_persists, opt_view, DecodeErrorView};
use crate::response::{
    encoding_type_xml, listing_xml, objects_xml, optional_element, prefixes_xml, text_element, ListBucketResult,
};
use crate::text::{bool_text, int_text};
use crate::value::{Field, Unsupported, Value};
use crate::xml::{
    chain, element, key_name, lemma_entries_error_persists, wrap, xml_of, xml_of_entries, xml_of_entry,
    xml_of_fields, xml_of_list,
};

verus! {

/// Fields written one list after another give the two texts one after another.
pub proof fn lemma_fields_concat(a: Seq<Field>, b: Seq<Field>)
    ensures
        xml_of_fields(a + b) == chain(xml_of_fields(a), xml_of_fields(b)),
    decreases b.len(),
{
    if b.len() == 0 {
        assert(a + b =~= a);
        match xml_of_fields(a) {
            Ok(x) => assert(x + Seq::<char>::empty() =~= x),
            Err(_) => {},
        }
    } else {
        assert((a + b).drop_last() =~= a + b.drop_last());
        assert((a + b).last() == b.last());
        lemma_fields_concat(a, b.drop_last());
        match (xml_of_fields(a), xml_of_fields(b.drop_last()), crate::xml::xml_of_field(b.last())) {
            (Ok(x), Ok(y), Ok(z)) => assert(x + y + z =~= x + (y + z)),
            _ => {},
        }
    }
}

/// A single field gives the text of that field.
pub proof fn lemma_fields_single(f: Field)
    ensures
        xml_of_fields(seq![f]) == crate::xml::xml_of_field(f),
{
    let s = seq![f];
    assert(s.len() == 1);
    assert(s.drop_last() =~= Seq::<Field>::empty());
    assert(s.last() == f);
    assert(xml_of_fields(Seq::<Field>::empty()) == Ok::<Seq<char>, Unsupported>(Seq::empty()));
    assert(xml_of_fields(s) == chain(Ok(Seq::empty()), crate::xml::xml_of_field(f)));
    match crate::xml::xml_of_field(f) {
        Ok(y) => assert(Seq::<char>::empty() + y =~= y),
        Err(_) => {},
    }
}

/// Omission: a named field whose value is absent leaves no trace in its
/// struct's text, not even an empty element; with a value present, the
/// field adds exactly that value's element, at the field's place.
pub proof fn law_absent_field_omitted(pre: Seq<Field>, post: Seq<Field>, name: String, v: Value)
    requires
        !(v is Absent),
    ensures
        xml_of_fields(pre + seq![Field::Named(name, Value::Absent)] + post) == xml_of_fields(pre + post),
        xml_of_fields(pre + seq![Field::Named(name, v)] + post) == chain(
            chain(xml_of_fields(pre), wrap(name@, xml_of(v))),
            xml_of_fields(post),
        ),
{
    let fa = Field::Named(name, Value::Absent);
    let fv = Field::Named(name, v);
    lemma_fields_single(fa);
    lemma_fields_single(fv);
    lemma_fields_concat(pre + seq![fa], post);
    lemma_fields_concat(pre, seq![fa]);
    lemma_fields_concat(pre + seq![fv], post);
    lemma_fields_concat(pre, seq![fv]);
    lemma_fields_concat(pre, post);
    match xml_of_fields(pre) {
        Ok(x) => {
            assert(x + Seq::<char>::empty() =~= x);
            match wrap(name@, xml_of(v)) {
                Ok(y) => assert(Seq::<char>::empty() + y =~= y),
                Err(_) => {},
            }
        },
        Err(_) => {},
    }
}

/// Splicing: a run of values in a spliced field is written straight into
/// the enclosing element, each value in order, with no element around the run.
pub proof fn law_spliced_run_unwrapped(pre: Seq<Field>, vs: Vec<Value>, post: Seq<Field>)
    ensures
        xml_of_fields(pre + seq![Field::Spliced(Value::Sequence(vs))] + post) == chain(
            chain(xml_of_fields(pre), xml_of_list(vs@)),
            xml_of_fields(post),
        ),
{
    let f = Field::Spliced(Value::Sequence(vs));
    lemma_fields_single(f);
    lemma_fields_concat(pre + seq![f], post);
    lemma_fields_concat(pre, seq![f]);
    match xml_of_list(vs@) {
        Ok(y) => assert(Seq::<char>::empty() + y =~= y),
        Err(_) => {},
    }
}

/// Key-type rejection: an entry whose key is a run, a map or a struct fails
/// the whole map with the key-type error, once the entries before it are fine.
pub proof fn law_compound_key_rejected(es: Vec<(Value, Value)>, i: int)
    requires
        0 <= i < es@.len(),
        xml_of_entries(es@.take(i)) is Ok,
        es@[i].0 is Sequence || es@[i].0 is Mapping || es@[i].0 is Struct,
    ensures
        xml_of(Value::Mapping(es)) == Err::<Seq<char>, Unsupported>(Unsupported::KeyType),
{
    assert(es@.take(i + 1).drop_last() =~= es@.take(i));
    assert(es@.take(i + 1).last() == es@[i]);
    assert(key_name(es@[i].0) == Err::<Seq<char>, Unsupported>(Unsupported::KeyType));
    assert(xml_of_entry(es@[i]) == Err::<Seq<char>, Unsupported>(Unsupported::KeyType));
    lemma_entries_error_persists(es@, i + 1);
}

/// The parameter names that the decoder knows.
pub open spec fn is_registered(name: Seq<char>) -> bool {
    name == "list-type"@ || name == "bucket"@ || name == "delimiter"@ || name == "encoding-type"@
        || name == "max-keys"@ || name == "prefix"@ || name == "continuation-token"@
        || name == "fetch-owner"@ || name == "start-after"@ || name == "request-payer"@
        || name == "expected-bucket-owner"@
}

/// Strictness: a pair whose name is not registered fails decoding with that
/// name, whatever valid pairs come before it and whatever pairs follow.
pub proof fn law_unknown_field_rejected(
    pre: Seq<(Seq<char>, Seq<char>)>,
    name: Seq<char>,
    value: Seq<char>,
    post: Seq<(Seq<char>, Seq<char>)>,
)
    requires
        decode_pairs(pre) is Ok,
        !is_registered(name),
    ensures
        decode_pairs(pre + seq![(name, value)] + post) == Err::<crate::request::RequestView, DecodeErrorView>(
            DecodeErrorView::UnknownField(name),
        ),
{
    let ps = pre + seq![(name, value)] + post;
    let j = pre.len() + 1int;
    assert(ps.take(j).drop_last() =~= pre);
    assert(ps.take(j).last() == (name, value));
    lemma_decode_error_persists(ps, j);
}

/// Last write wins: once a parameter was accepted, giving it again decodes
/// as if only the later pair had been given.
pub proof fn law_last_write_wins(
    ps: Seq<(Seq<char>, Seq<char>)>,
    name: Seq<char>,
    a: Seq<char>,
    b: Seq<char>,
)
    requires
        decode_pairs(ps.push((name, a))) is Ok,
    ensures
        decode_pairs(ps.push((name, a)).push((name, b))) == decode_pairs(ps.push((name, b))),
{
    assert(ps.push((name, a)).drop_last() =~= ps);
    assert(ps.push((name, b)).drop_last() =~= ps);
    assert(ps.push((name, a)).push((name, b)).drop_last() =~= ps.push((name, a)));
}


/// Empty listing: with no objects and no common prefixes, the response holds
/// no `Contents` and no `CommonPrefixes` element, only the flag, the names,
/// the limits and whichever optional fields are present.
pub proof fn law_empty_listing(r: ListBucketResult)
    requires
        r.contents@.len() == 0,
        r.common_prefixes@.len() == 0,
    ensures
        listing_xml(r) == Some(element(
            "ListBucketResult"@,
            element("IsTruncated"@, bool_text(r.is_truncated)) + text_element("Name"@, r.name@)
                + text_element("Prefix"@, r.prefix@) + text_element("Delimiter"@, r.delimiter@)
                + element("MaxKeys"@, int_text(r.max_keys as int)) + encoding_type_xml(r.encoding_type)
                + element("KeyCount"@, int_text(r.key_count as int))
                + optional_element("ContinuationToken"@, opt_view(r.continuation_token))
                + optional_element("NextContinuationToken"@, opt_view(r.next_continuation_token))
                + optional_element("StartAfter"@, opt_view(r.start_after)),
        )),
{
    assert(objects_xml(r.contents@) == Some(Seq::<char>::empty()));
    assert(prefixes_xml(r.common_prefixes@) == Seq::<char>::empty());
    let head = element("IsTruncated"@, bool_text(r.is_truncated));
    assert(head + Seq::<char>::empty() =~= head);
    let mid = head + text_element("Name"@, r.name@) + text_element("Prefix"@, r.prefix@)
        + text_element("Delimiter"@, r.delimiter@) + element("MaxKeys"@, int_text(r.max_keys as int));
    assert(mid + Seq::<char>::empty() =~= mid);
}

} // verus!
