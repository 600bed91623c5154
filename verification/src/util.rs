//! Small verified utilities: text conversions and the key-list formatter
//! used for write-operation diagnostics.

use vstd::prelude::*;
use vstd::utf8::{valid_utf8, decode_utf8};
use vstd::string::StringExecFns;
use crate::types::KeyValue;

verus! {

/// Relies on `String::from_utf8`: it succeeds exactly on valid UTF-8 input
/// and returns the string whose characters decode from those bytes.
#[verifier::external_body]
pub fn bytes_to_string(v: Vec<u8>) -> (r: Option<String>)
    ensures
        r is Some <==> valid_utf8(v@),
        r matches Some(s) ==> s@ == decode_utf8(v@),
{
    String::from_utf8(v).ok()
}

/// Relies on `String::push`: it appends exactly the given character.
#[verifier::external_body]
pub fn push_char(s: &mut String, c: char)
    ensures
        final(s)@ == old(s)@.push(c),
{
    s.push(c);
}

/// The keys of `items` joined by a comma and a space, in order.
pub open spec fn key_list_view(keys: Seq<Seq<char>>) -> Seq<char>
    decreases keys.len(),
{
    if keys.len() == 0 {
        Seq::empty()
    } else if keys.len() == 1 {
        keys[0]
    } else {
        key_list_view(keys.drop_last()) + ", "@ + keys.last()
    }
}

/// Formats the keys of `items` as `[k1, k2, k3]`, for diagnostics that name
/// the keys a write touches but never their values.
pub fn key_list_string(items: &Vec<KeyValue>) -> (r: String)
    ensures
        r@ == "["@ + key_list_view(items@.map_values(|kv: KeyValue| kv.key@)) + "]"@,
{
    let ghost keys = items@.map_values(|kv: KeyValue| kv.key@);
    let mut out = String::from_str("[");
    let mut i: usize = 0;
    while i < items.len()
        invariant
            i <= items.len(),
            keys == items@.map_values(|kv: KeyValue| kv.key@),
            keys.len() == items@.len(),
            out@ == "["@ + key_list_view(keys.subrange(0, i as int)) + (
            if 0 < i && i < items@.len() {
                ", "@
            } else {
                Seq::<char>::empty()
            }),
        decreases items.len() - i,
    {
        proof {
            assert(keys.subrange(0, i as int + 1).drop_last() =~= keys.subrange(
                0,
                i as int,
            ));
            assert(keys.subrange(0, i as int + 1).last() == items@[i as int].key@);
        }
        out.append(items[i].key.as_str());
        i = i + 1;
        if i < items.len() {
            out.append(", ");
        }
        proof {
            assert(out@ =~= "["@ + key_list_view(keys.subrange(0, i as int)) + (
            if 0 < i && i < items@.len() {
                ", "@
            } else {
                Seq::<char>::empty()
            }));
        }
    }
    out.append("]");
    proof {
        assert(keys.subrange(0, keys.len() as int) =~= keys);
        assert(out@ =~= "["@ + key_list_view(keys) + "]"@);
    }
    out
}

} // verus!
