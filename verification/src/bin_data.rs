//! Binary files kept with a campaign (the template mission, images,
//! sounds). In the saved campaign their bytes are written as base64 text
//! without padding.
use vstd::prelude::*;
use base64::Engine;

verus! {

/// The error the base64 decoder reports.
#[verifier::external_type_specification]
#[verifier::external_body]
pub struct ExDecodeError(base64::DecodeError);

/// The character of a six-bit value in the standard base64 alphabet:
/// `A`-`Z`, `a`-`z`, `0`-`9`, `+`, `/`.
pub open spec fn base64_char(v: int) -> char {
    if v < 26 {
        (65 + v) as char
    } else if v < 52 {
        (97 + v - 26) as char
    } else if v < 62 {
        (48 + v - 52) as char
    } else if v == 62 {
        '+'
    } else {
        '/'
    }
}

/// The text that the standard base64 alphabet without padding gives for
/// `data`: each three bytes become four characters of six bits each, and a
/// last one or two bytes become two or three characters.
pub open spec fn base64_text(data: Seq<u8>) -> Seq<char>
    decreases data.len(),
{
    if data.len() == 0 {
        Seq::empty()
    } else if data.len() == 1 {
        seq![base64_char(data[0] as int / 4), base64_char((data[0] as int % 4) * 16)]
    } else if data.len() == 2 {
        seq![
            base64_char(data[0] as int / 4),
            base64_char((data[0] as int % 4) * 16 + data[1] as int / 16),
            base64_char((data[1] as int % 16) * 4),
        ]
    } else {
        seq![
            base64_char(data[0] as int / 4),
            base64_char((data[0] as int % 4) * 16 + data[1] as int / 16),
            base64_char((data[1] as int % 16) * 4 + data[2] as int / 64),
            base64_char(data[2] as int % 64),
        ] + base64_text(data.subrange(3, data.len() as int))
    }
}

/// Different six-bit values have different characters.
proof fn lemma_base64_char_injective(a: int, b: int)
    requires
        0 <= a < 64,
        0 <= b < 64,
        base64_char(a) == base64_char(b),
    ensures
        a == b,
{
    assert(base64_char(a) as int == base64_char(b) as int);
}

/// Base64 text of one, two, or three or more bytes is two, three, or at
/// least four characters long, and empty bytes give empty text.
proof fn lemma_base64_text_len(d: Seq<u8>)
    ensures
        d.len() == 0 ==> base64_text(d).len() == 0,
        d.len() == 1 ==> base64_text(d).len() == 2,
        d.len() == 2 ==> base64_text(d).len() == 3,
        d.len() >= 3 ==> base64_text(d).len() >= 4,
{
}

/// Saved bytes read back as themselves: two byte sequences with the same
/// base64 text are the same, so the text that `encoded_data` writes is read
/// by `from_encoded` as the bytes it was written from.
pub proof fn law_saved_bytes_read_back(a: Seq<u8>, b: Seq<u8>)
    requires
        base64_text(a) == base64_text(b),
    ensures
        a == b,
    decreases a.len(),
{
    let t = base64_text(a);
    lemma_base64_text_len(a);
    lemma_base64_text_len(b);
    if a.len() == 0 {
        assert(b.len() == 0);
        assert(a =~= b);
    } else {
        assert(b.len() > 0);
        let (a0, b0) = (a[0] as int, b[0] as int);
        assert(t[0] == base64_char(a0 / 4) && t[0] == base64_char(b0 / 4));
        lemma_base64_char_injective(a0 / 4, b0 / 4);
        if a.len() == 1 {
            assert(b.len() == 1);
            assert(t[1] == base64_char((a0 % 4) * 16) && t[1] == base64_char((b0 % 4) * 16));
            lemma_base64_char_injective((a0 % 4) * 16, (b0 % 4) * 16);
            assert(a0 == b0);
            assert(a =~= b);
        } else {
            assert(b.len() >= 2);
            let (a1, b1) = (a[1] as int, b[1] as int);
            assert(t[1] == base64_char((a0 % 4) * 16 + a1 / 16) && t[1] == base64_char((b0 % 4) * 16 + b1 / 16));
            lemma_base64_char_injective((a0 % 4) * 16 + a1 / 16, (b0 % 4) * 16 + b1 / 16);
            assert(a0 % 4 == b0 % 4 && a1 / 16 == b1 / 16);
            assert(a0 == b0);
            if a.len() == 2 {
                assert(b.len() == 2);
                assert(t[2] == base64_char((a1 % 16) * 4) && t[2] == base64_char((b1 % 16) * 4));
                lemma_base64_char_injective((a1 % 16) * 4, (b1 % 16) * 4);
                assert(a1 == b1);
                assert(a =~= b);
            } else {
                assert(b.len() >= 3);
                let (a2, b2) = (a[2] as int, b[2] as int);
                assert(t[2] == base64_char((a1 % 16) * 4 + a2 / 64) && t[2] == base64_char((b1 % 16) * 4 + b2 / 64));
                lemma_base64_char_injective((a1 % 16) * 4 + a2 / 64, (b1 % 16) * 4 + b2 / 64);
                assert(t[3] == base64_char(a2 % 64) && t[3] == base64_char(b2 % 64));
                lemma_base64_char_injective(a2 % 64, b2 % 64);
                assert(a1 == b1);
                assert(a2 == b2);
                let ra = a.subrange(3, a.len() as int);
                let rb = b.subrange(3, b.len() as int);
                assert(base64_text(ra) =~= t.subrange(4, t.len() as int));
                assert(base64_text(rb) =~= t.subrange(4, t.len() as int));
                law_saved_bytes_read_back(ra, rb);
                assert(a.len() == b.len());
                assert forall|k: int| 0 <= k < a.len() implies a[k] == b[k] by {
                    if k >= 3 {
                        assert(a[k] == ra[k - 3]);
                        assert(b[k] == rb[k - 3]);
                    }
                }
                assert(a =~= b);
            }
        }
    }
}

/// The length of the base64 text, without padding, of `n` bytes.
pub open spec fn base64_len(n: nat) -> nat {
    (n / 3) * 4 + if n % 3 == 1 {
        2nat
    } else if n % 3 == 2 {
        3nat
    } else {
        0nat
    }
}


/// Calls `STANDARD_NO_PAD.encode` of the base64 crate: the result is the
/// base64 text of the bytes, and decoding it gives the bytes back. The
/// encoder panics when the length of its output overflows `usize`, which
/// the bound on the input rules out.
#[verifier::external_body]
fn encode_base64(data: &Vec<u8>) -> (res: String)
    requires
        base64_len(data@.len()) <= usize::MAX,
    ensures
        res@ == base64_text(data@),
{
    base64::engine::general_purpose::STANDARD_NO_PAD.encode(data)
}

/// Calls `STANDARD_NO_PAD.decode` of the base64 crate. Without padding and
/// without trailing bits it accepts exactly the texts that encoding gives:
/// it gives bytes whose base64 text is `text`, and fails where no bytes
/// have that text.
#[verifier::external_body]
fn decode_base64(text: &str) -> (res: Result<Vec<u8>, base64::DecodeError>)
    ensures
        match res {
            Ok(v) => base64_text(v@) == text@,
            Err(_) => forall|d: Seq<u8>| base64_text(d) != text@,
        },
{
    base64::engine::general_purpose::STANDARD_NO_PAD.decode(text)
}

/// A named binary file.
#[derive(Debug)]
pub struct BinItem {
    pub name: String,
    pub data: Vec<u8>,
}

/// The binary files of a campaign: images, the template mission and sounds.
#[derive(Debug)]
pub struct BinData {
    pub images: Vec<BinItem>,
    pub template_miz: BinItem,
    pub sounds: Vec<BinItem>,
}

/// Base64 text that does not decode.
#[derive(Debug, Clone, PartialEq)]
pub struct NotBase64;

impl BinItem {
    /// A binary file called `name` holding a copy of `data`.
    pub fn from_stored_resource(name: &str, data: &[u8]) -> (res: BinItem)
        ensures
            res.name@ == name@,
            res.data@ == data@,
    {
        let mut v: Vec<u8> = Vec::new();
        let mut i: usize = 0;
        while i < data.len()
            invariant
                i <= data@.len(),
                v@ == data@.take(i as int),
            decreases data@.len() - i,
        {
            v.push(data[i]);
            i = i + 1;
            assert(v@ =~= data@.take(i as int));
        }
        assert(data@.take(data@.len() as int) =~= data@);
        BinItem { name: name.to_owned(), data: v }
    }

    /// The file's bytes as saved: base64 text, standard alphabet, no padding.
    /// Reading that text back gives the same bytes.
    pub fn encoded_data(&self) -> (res: String)
        requires
            base64_len(self.data@.len()) <= usize::MAX,
        ensures
            res@ == base64_text(self.data@),
    {
        encode_base64(&self.data)
    }

    /// A binary file called `name` whose bytes are saved as base64 text
    /// `text`; fails where the text does not decode.
    pub fn from_encoded(name: String, text: &str) -> (res: Result<BinItem, NotBase64>)
        ensures
            match res {
                Ok(b) => b.name@ == name@ && base64_text(b.data@) == text@,
                Err(_) => forall|d: Seq<u8>| base64_text(d) != text@,
            },
    {
        match decode_base64(text) {
            Ok(data) => Ok(BinItem { name, data }),
            Err(_) => Err(NotBase64),
        }
    }
}

} // verus!
