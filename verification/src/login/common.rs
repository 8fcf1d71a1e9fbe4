use vstd::prelude::*;
use vstd::utf8::encode_utf8;
use crate::encoding::{emit_then, fail_after, Decode, Emitted, Encode, Parsed, Result};
use crate::util::{
    lemma_option_roundtrip, lemma_prefixed_roundtrip, lemma_string_reads_back,
    lemma_string_roundtrip, option_decodable, option_emit, option_parse, prefixed_emit,
    prefixed_parse, read_option, read_string, reads_back, str_bytes, string_parse, varint_fits,
    write_option, write_string,
};

verus! {

broadcast use vstd::seq_lib::lemma_seq_skip_of_skip;

/// A property of a player's profile, such as its skin: a name, a value and, optionally,
/// a signature of the value.
pub struct Property {
    name: String,
    value: String,
    signature: Option<String>,
}

impl DeepView for Property {
    type V = (Seq<char>, Seq<char>, Option<Seq<char>>);

    closed spec fn deep_view(&self) -> Self::V {
        (self.name@, self.value@, self.signature.deep_view())
    }
}

impl Encode for Property {
    /// The name and the value as strings, then the optional signature.
    open spec fn encoding(v: Self::V) -> Emitted {
        emit_then((str_bytes(v.0) + str_bytes(v.1), None), option_emit::<String>(v.2))
    }

    fn proto772_encode(&self, writer: &mut Vec<u8>) -> (res: Result<()>) {
        write_string(self.name.as_str(), writer)?;
        write_string(self.value.as_str(), writer)?;
        let ghost mid = writer@;
        let r = write_option(self.signature.as_ref(), writer);
        assert(writer@ =~= old(writer)@ + Self::encoding(self.deep_view()).0);
        r?;
        Ok(())
    }
}

impl Decode for Property {
    /// Two strings, then an optional string.
    open spec fn decoding(s: Seq<u8>) -> Parsed<Self::V> {
        match string_parse(s) {
            Parsed::Done(name, n1) => match string_parse(s.skip(n1 as int)) {
                Parsed::Done(value, n2) => match option_parse::<String>(s.skip((n1 + n2) as int)) {
                    Parsed::Done(signature, n3) => Parsed::Done((name, value, signature), n1 + n2 + n3),
                    Parsed::Fail(k, c) => fail_after(n1 + n2, k, c),
                    Parsed::Stuck => Parsed::Stuck,
                },
                Parsed::Fail(k, c) => fail_after(n1, k, c),
                Parsed::Stuck => Parsed::Stuck,
            },
            Parsed::Fail(k, c) => Parsed::Fail(k, c),
            Parsed::Stuck => Parsed::Stuck,
        }
    }

    fn proto772_decodable(bytes: &[u8]) -> (res: bool) {
        let mut r: &[u8] = bytes;
        if !varint_fits(r) {
            return false;
        }
        if read_string(&mut r).is_err() {
            return true;
        }
        if !varint_fits(r) {
            return false;
        }
        if read_string(&mut r).is_err() {
            return true;
        }
        option_decodable::<String>(r)
    }

    fn proto772_decode(reader: &mut &[u8]) -> (res: Result<Self>) {
        let ghost s = reader@;
        let name = read_string(reader)?;
        let ghost n1 = (s.len() - reader@.len()) as nat;
        let value = read_string(reader)?;
        assert(reader@ =~= s.skip(s.len() - reader@.len()));
        let signature = read_option::<String>(reader)?;
        assert(reader@ =~= s.skip(s.len() - reader@.len()));
        Ok(Self { name, value, signature })
    }
}

/// A property reads back as it was written, whatever follows it, when the UTF-8 lengths
/// of its name, value and signature fit in an `i32` (the first two are cast unchecked).
pub proof fn lemma_property_roundtrip(v: <Property as DeepView>::V)
    requires
        encode_utf8(v.0).len() <= i32::MAX,
        encode_utf8(v.1).len() <= i32::MAX,
        v.2 matches Some(sig) ==> encode_utf8(sig).len() <= i32::MAX,
    ensures
        reads_back::<Property>(v),
{
    let a = str_bytes(v.0);
    let b = str_bytes(v.1);
    if let Some(sig) = v.2 {
        lemma_string_reads_back(sig);
    }
    assert forall|rest: Seq<u8>|
        #[trigger] <Property as Decode>::decoding(<Property as Encode>::encoding(v).0 + rest)
            == Parsed::Done(v, <Property as Encode>::encoding(v).0.len()) by {
        let c = option_emit::<String>(v.2).0;
        lemma_option_roundtrip::<String>(v.2, rest);
        let all = <Property as Encode>::encoding(v).0 + rest;
        assert(all =~= a + (b + (c + rest)));
        lemma_string_roundtrip(v.0, b + (c + rest));
        assert(all.skip(a.len() as int) =~= b + (c + rest));
        lemma_string_roundtrip(v.1, c + rest);
        assert(all.skip((a.len() + b.len()) as int) =~= c + rest);
    }
}

/// Properties that [`write_prefixed_array`] writes, [`read_prefixed_array`] reads back,
/// whatever follows them, when their number and the UTF-8 lengths of their strings fit in
/// an `i32`.
pub proof fn lemma_properties_roundtrip(ps: Seq<<Property as DeepView>::V>, rest: Seq<u8>)
    requires
        ps.len() <= i32::MAX,
        forall|i: int|
            0 <= i < ps.len() ==> {
                &&& encode_utf8((#[trigger] ps[i]).0).len() <= i32::MAX
                &&& encode_utf8(ps[i].1).len() <= i32::MAX
                &&& ps[i].2 matches Some(sig) ==> encode_utf8(sig).len() <= i32::MAX
            },
    ensures
        prefixed_emit::<Property>(ps).1 is None,
        prefixed_parse::<Property>(prefixed_emit::<Property>(ps).0 + rest) == Parsed::Done(
            ps,
            prefixed_emit::<Property>(ps).0.len(),
        ),
{
    assert forall|i: int| 0 <= i < ps.len() implies reads_back::<Property>(#[trigger] ps[i]) by {
        lemma_property_roundtrip(ps[i]);
    }
    lemma_prefixed_roundtrip::<Property>(ps, rest);
}

} // verus!
