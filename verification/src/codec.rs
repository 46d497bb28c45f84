//! Record encoding. Every stored record is a flat byte string: 64-bit fields
//! as little-endian octets, text as a byte count followed by its UTF-8
//! octets, and lists as an element count followed by the encoded elements.
//! The decoders run under the store invariant that the bytes were produced by
//! the encoders, which is what makes decoding total and exact.

use vstd::bytes::*;
use vstd::prelude::*;
use vstd::slice::*;
use vstd::string::*;
use vstd::utf8::*;

verus! {

/// A 64-bit field, as eight little-endian bytes.
pub open spec fn enc_u64(x: u64) -> Seq<u8> {
    spec_u64_to_le_bytes(x)
}

/// A text field: the UTF-8 byte count, then the UTF-8 bytes themselves.
pub open spec fn enc_text(s: Seq<char>) -> Seq<u8> {
    enc_u64(encode_utf8(s).len() as u64) + encode_utf8(s)
}

/// The concatenation of the encodings of a list's elements.
pub open spec fn cat_u64s(l: Seq<u64>) -> Seq<u8>
    decreases l.len(),
{
    if l.len() == 0 {
        Seq::empty()
    } else {
        enc_u64(l[0]) + cat_u64s(l.drop_first())
    }
}

/// A list of 64-bit fields: the element count, then the elements.
pub open spec fn enc_u64_list(l: Seq<u64>) -> Seq<u8> {
    enc_u64(l.len() as u64) + cat_u64s(l)
}

/// The concatenation of the encodings of a list's text elements.
pub open spec fn cat_texts(l: Seq<Seq<char>>) -> Seq<u8>
    decreases l.len(),
{
    if l.len() == 0 {
        Seq::empty()
    } else {
        enc_text(l[0]) + cat_texts(l.drop_first())
    }
}

/// A list of text fields: the element count, then the elements.
pub open spec fn enc_text_list(l: Seq<Seq<char>>) -> Seq<u8> {
    enc_u64(l.len() as u64) + cat_texts(l)
}

/// The 64-bit value read back from eight little-endian bytes at an offset.
pub open spec fn read_u64_at(b: Seq<u8>, off: int) -> u64 {
    spec_u64_from_le_bytes(b.subrange(off, off + 8))
}

pub proof fn lemma_enc_u64_len(x: u64)
    ensures
        enc_u64(x).len() == 8,
{
    lemma_auto_spec_u64_to_from_le_bytes();
}

pub proof fn lemma_read_enc_u64(b: Seq<u8>, off: int, x: u64)
    requires
        0 <= off,
        off + 8 <= b.len(),
        b.subrange(off, off + 8) == enc_u64(x),
    ensures
        read_u64_at(b, off) == x,
{
    lemma_auto_spec_u64_to_from_le_bytes();
}

/// Splitting a known concatenation at its seam: if the bytes at `off` are
/// `head + tail`, then `head` and `tail` each stand at their own offsets.
pub proof fn lemma_split_head(s: Seq<u8>, off: int, head: Seq<u8>, tail: Seq<u8>)
    requires
        0 <= off,
        off + head.len() + tail.len() <= s.len(),
        s.subrange(off, off + head.len() + tail.len()) == head + tail,
    ensures
        s.subrange(off, off + head.len()) == head,
        s.subrange(off + head.len(), off + head.len() + tail.len()) == tail,
{
    let whole = s.subrange(off, off + head.len() + tail.len());
    assert(s.subrange(off, off + head.len()) =~= head) by {
        assert forall|i: int| 0 <= i < head.len() implies s.subrange(off, off + head.len())[i]
            == head[i] by {
            assert(whole[i] == (head + tail)[i]);
        }
    }
    assert(s.subrange(off + head.len(), off + head.len() + tail.len()) =~= tail) by {
        assert forall|i: int|
            0 <= i < tail.len() implies s.subrange(
            off + head.len(),
            off + head.len() + tail.len(),
        )[i] == tail[i] by {
            assert(whole[head.len() + i] == (head + tail)[head.len() + i]);
        }
    }
}

/// Appends a 64-bit field to an encoding under construction.
pub fn put_u64(out: &mut Vec<u8>, x: u64)
    ensures
        final(out)@ == old(out)@ + enc_u64(x),
{
    let b = u64_to_le_bytes(x);
    out.extend_from_slice(b.as_slice());
}

/// Appends a text field to an encoding under construction.
pub fn put_text(out: &mut Vec<u8>, s: &str)
    ensures
        final(out)@ == old(out)@ + enc_text(s@),
{
    let ghost pre = out@;
    let bytes = s.as_bytes();
    put_u64(out, bytes.len() as u64);
    out.extend_from_slice(bytes);
    proof {
        assert(out@ =~= pre + enc_text(s@));
    }
}

/// Reads the eight bytes at `off` back as a 64-bit field.
pub fn take_u64(b: &Vec<u8>, off: usize) -> (r: u64)
    requires
        off + 8 <= b@.len(),
    ensures
        r == read_u64_at(b@, off as int),
{
    let total = b.len();
    u64_from_le_bytes(slice_subrange(b.as_slice(), off, off + 8))
}

/// Copies `n` bytes starting at `off` out of an encoding.
pub fn take_bytes(b: &Vec<u8>, off: usize, n: usize) -> (r: Vec<u8>)
    requires
        off + n <= b@.len(),
    ensures
        r@ == b@.subrange(off as int, off + n),
{
    let total = b.len();
    slice_to_vec(slice_subrange(b.as_slice(), off, off + n))
}

/// Relies on `String::from_utf8`: it accepts exactly the byte sequences that
/// are valid UTF-8, and the string it returns is the one those bytes encode.
#[verifier::external_body]
fn utf8_to_string(bytes: Vec<u8>) -> (r: Option<String>)
    ensures
        match r {
            Some(s) => bytes@ == encode_utf8(s@),
            None => !valid_utf8(bytes@),
        },
{
    match String::from_utf8(bytes) {
        Ok(s) => Some(s),
        Err(_) => None,
    }
}

/// Reads the text field whose encoding stands at `off`; `w` names the text
/// the store invariant says was written there.
pub fn take_text(b: &Vec<u8>, off: usize, w: Ghost<Seq<char>>) -> (r: (String, usize))
    requires
        off + enc_text(w@).len() <= b@.len(),
        b@.subrange(off as int, off as int + enc_text(w@).len()) == enc_text(w@),
    ensures
        r.0@ == w@,
        r.1 == off + enc_text(w@).len(),
{
    let ghost payload = encode_utf8(w@);
    let total = b.len();
    proof {
        lemma_enc_u64_len(payload.len() as u64);
        lemma_split_head(b@, off as int, enc_u64(payload.len() as u64), payload);
        lemma_read_enc_u64(b@, off as int, payload.len() as u64);
    }
    let n = take_u64(b, off);
    let bytes = take_bytes(b, off + 8, n as usize);
    proof {
        assert(bytes@ == payload);
    }
    let s_opt = utf8_to_string(bytes);
    match s_opt {
        Some(s) => {
            proof {
                encode_utf8_decode_utf8(s@);
                encode_utf8_decode_utf8(w@);
            }
            (s, off + 8 + (n as usize))
        },
        None => {
            proof {
                encode_utf8_valid_utf8(w@);
            }
            vstd::pervasive::unreached()
        },
    }
}

pub proof fn lemma_cat_u64s_push(l: Seq<u64>, x: u64)
    ensures
        cat_u64s(l.push(x)) == cat_u64s(l) + enc_u64(x),
    decreases l.len(),
{
    if l.len() == 0 {
        assert(l.push(x).drop_first() =~= Seq::<u64>::empty());
        assert(l.push(x)[0] == x);
        assert(cat_u64s(Seq::<u64>::empty()) == Seq::<u8>::empty());
        assert(cat_u64s(l.push(x)) == enc_u64(x) + Seq::<u8>::empty());
        assert(enc_u64(x) + Seq::<u8>::empty() =~= Seq::<u8>::empty() + enc_u64(x));
        assert(cat_u64s(l) == Seq::<u8>::empty());
    } else {
        assert(l.push(x).drop_first() =~= l.drop_first().push(x));
        assert(l.push(x)[0] == l[0]);
        lemma_cat_u64s_push(l.drop_first(), x);
        assert(cat_u64s(l.push(x)) == enc_u64(l[0]) + (cat_u64s(l.drop_first()) + enc_u64(x)));
        assert(enc_u64(l[0]) + (cat_u64s(l.drop_first()) + enc_u64(x)) =~= (enc_u64(l[0])
            + cat_u64s(l.drop_first())) + enc_u64(x));
    }
}

pub proof fn lemma_cat_u64s_len(l: Seq<u64>)
    ensures
        cat_u64s(l).len() == 8 * l.len(),
    decreases l.len(),
{
    if l.len() == 0 {
    } else {
        lemma_enc_u64_len(l[0]);
        lemma_cat_u64s_len(l.drop_first());
    }
}

pub proof fn lemma_cat_texts_push(l: Seq<Seq<char>>, x: Seq<char>)
    ensures
        cat_texts(l.push(x)) == cat_texts(l) + enc_text(x),
    decreases l.len(),
{
    if l.len() == 0 {
        assert(l.push(x).drop_first() =~= Seq::<Seq<char>>::empty());
        assert(l.push(x)[0] == x);
        assert(cat_texts(Seq::<Seq<char>>::empty()) == Seq::<u8>::empty());
        assert(cat_texts(l.push(x)) == enc_text(x) + Seq::<u8>::empty());
        assert(enc_text(x) + Seq::<u8>::empty() =~= Seq::<u8>::empty() + enc_text(x));
        assert(cat_texts(l) == Seq::<u8>::empty());
    } else {
        assert(l.push(x).drop_first() =~= l.drop_first().push(x));
        assert(l.push(x)[0] == l[0]);
        lemma_cat_texts_push(l.drop_first(), x);
        assert(cat_texts(l.push(x)) == enc_text(l[0]) + (cat_texts(l.drop_first()) + enc_text(x)));
        assert(enc_text(l[0]) + (cat_texts(l.drop_first()) + enc_text(x)) =~= (enc_text(l[0])
            + cat_texts(l.drop_first())) + enc_text(x));
    }
}

/// Every text element costs at least its eight-byte count prefix.
pub proof fn lemma_cat_texts_len_lb(l: Seq<Seq<char>>)
    ensures
        cat_texts(l).len() >= 8 * l.len(),
    decreases l.len(),
{
    if l.len() == 0 {
    } else {
        lemma_enc_u64_len(encode_utf8(l[0]).len() as u64);
        lemma_cat_texts_len_lb(l.drop_first());
    }
}

/// Appends a list of 64-bit fields to an encoding under construction.
pub fn put_u64_list(out: &mut Vec<u8>, l: &Vec<u64>)
    ensures
        final(out)@ == old(out)@ + enc_u64_list(l@),
{
    let ghost pre = out@;
    put_u64(out, l.len() as u64);
    let n = l.len();
    for i in 0..n
        invariant
            n == l@.len(),
            out@ == pre + enc_u64(l@.len() as u64) + cat_u64s(l@.take(i as int)),
    {
        put_u64(out, l[i]);
        proof {
            assert(l@.take(i + 1) =~= l@.take(i as int).push(l@[i as int]));
            lemma_cat_u64s_push(l@.take(i as int), l@[i as int]);
            assert(pre + enc_u64(l@.len() as u64) + cat_u64s(l@.take(i as int)) + enc_u64(
                l@[i as int],
            ) =~= pre + enc_u64(l@.len() as u64) + cat_u64s(l@.take(i + 1)));
        }
    }
    proof {
        assert(l@.take(n as int) =~= l@);
        assert(pre + enc_u64(l@.len() as u64) + cat_u64s(l@) =~= pre + enc_u64_list(l@));
    }
}

/// Appends a list of text fields to an encoding under construction.
pub fn put_text_list(out: &mut Vec<u8>, l: &Vec<String>)
    ensures
        final(out)@ == old(out)@ + enc_text_list(l.deep_view()),
{
    let ghost pre = out@;
    let ghost lv = l.deep_view();
    put_u64(out, l.len() as u64);
    let n = l.len();
    proof {
        assert(lv.len() == l@.len());
    }
    for i in 0..n
        invariant
            n == l@.len(),
            lv == l.deep_view(),
            lv.len() == n,
            forall|j: int| 0 <= j < n ==> lv[j] == (#[trigger] l@[j])@,
            out@ == pre + enc_u64(lv.len() as u64) + cat_texts(lv.take(i as int)),
    {
        put_text(out, l[i].as_str());
        proof {
            assert(lv.take(i + 1) =~= lv.take(i as int).push(lv[i as int]));
            lemma_cat_texts_push(lv.take(i as int), lv[i as int]);
            assert(pre + enc_u64(lv.len() as u64) + cat_texts(lv.take(i as int)) + enc_text(
                lv[i as int],
            ) =~= pre + enc_u64(lv.len() as u64) + cat_texts(lv.take(i + 1)));
        }
    }
    proof {
        assert(lv.take(n as int) =~= lv);
        assert(pre + enc_u64(lv.len() as u64) + cat_texts(lv) =~= pre + enc_text_list(lv));
    }
}

/// Reads the list of 64-bit fields whose encoding stands at `off`; `w` names
/// the list the store invariant says was written there.
pub fn take_u64_list(b: &Vec<u8>, off: usize, w: Ghost<Seq<u64>>) -> (r: (Vec<u64>, usize))
    requires
        off + enc_u64_list(w@).len() <= b@.len(),
        b@.subrange(off as int, off as int + enc_u64_list(w@).len()) == enc_u64_list(w@),
    ensures
        r.0@ == w@,
        r.1 == off + enc_u64_list(w@).len(),
{
    let total = b.len();
    proof {
        lemma_enc_u64_len(w@.len() as u64);
        lemma_cat_u64s_len(w@);
        lemma_split_head(b@, off as int, enc_u64(w@.len() as u64), cat_u64s(w@));
        lemma_read_enc_u64(b@, off as int, w@.len() as u64);
    }
    let count = take_u64(b, off);
    let n = count as usize;
    let mut out: Vec<u64> = Vec::new();
    let mut cur: usize = off + 8;
    proof {
        assert(w@.skip(0) =~= w@);
    }
    for i in 0..n
        invariant
            n == w@.len(),
            total == b@.len(),
            out@ == w@.take(i as int),
            cur == off + 8 + 8 * i,
            cur + 8 * (n - i) <= total,
            b@.subrange(cur as int, cur as int + 8 * (n - i)) == cat_u64s(w@.skip(i as int)),
    {
        proof {
            assert(w@.skip(i as int)[0] == w@[i as int]);
            assert(w@.skip(i as int).drop_first() =~= w@.skip(i + 1));
            lemma_enc_u64_len(w@[i as int]);
            lemma_cat_u64s_len(w@.skip(i + 1));
            lemma_split_head(b@, cur as int, enc_u64(w@[i as int]), cat_u64s(w@.skip(i + 1)));
            lemma_read_enc_u64(b@, cur as int, w@[i as int]);
        }
        let x = take_u64(b, cur);
        out.push(x);
        cur += 8;
        proof {
            assert(out@ =~= w@.take(i + 1));
        }
    }
    proof {
        assert(w@.take(n as int) =~= w@);
    }
    (out, cur)
}

/// Reads the list of text fields whose encoding stands at `off`; `w` names
/// the list the store invariant says was written there.
pub fn take_text_list(b: &Vec<u8>, off: usize, w: Ghost<Seq<Seq<char>>>) -> (r: (Vec<String>, usize))
    requires
        off + enc_text_list(w@).len() <= b@.len(),
        b@.subrange(off as int, off as int + enc_text_list(w@).len()) == enc_text_list(w@),
    ensures
        r.0.deep_view() == w@,
        r.0@.len() == w@.len(),
        forall|i: int| 0 <= i < w@.len() ==> (#[trigger] r.0@[i])@ == w@[i],
        r.1 == off + enc_text_list(w@).len(),
{
    let total = b.len();
    let ghost end = off as int + enc_text_list(w@).len() as int;
    proof {
        lemma_enc_u64_len(w@.len() as u64);
        lemma_cat_texts_len_lb(w@);
        lemma_split_head(b@, off as int, enc_u64(w@.len() as u64), cat_texts(w@));
        lemma_read_enc_u64(b@, off as int, w@.len() as u64);
    }
    let count = take_u64(b, off);
    let n = count as usize;
    let mut out: Vec<String> = Vec::new();
    let mut cur: usize = off + 8;
    proof {
        assert(w@.skip(0) =~= w@);
    }
    for i in 0..n
        invariant
            n == w@.len(),
            total == b@.len(),
            out@.len() == i,
            forall|j: int| 0 <= j < i ==> (#[trigger] out@[j])@ == w@[j],
            cur as int + cat_texts(w@.skip(i as int)).len() == end,
            end <= total,
            b@.subrange(cur as int, end) == cat_texts(w@.skip(i as int)),
    {
        proof {
            assert(w@.skip(i as int)[0] == w@[i as int]);
            assert(w@.skip(i as int).drop_first() =~= w@.skip(i + 1));
            lemma_split_head(b@, cur as int, enc_text(w@[i as int]), cat_texts(w@.skip(i + 1)));
        }
        let (s, next) = take_text(b, cur, Ghost(w@[i as int]));
        out.push(s);
        cur = next;
    }
    proof {
        assert(cat_texts(w@.skip(n as int)) =~= Seq::<u8>::empty());
        assert(out.deep_view() =~= w@);
    }
    (out, cur)
}

} // verus!
