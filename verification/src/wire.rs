//! The building blocks of the binary encoding: lengths, byte strings, text
//! and lists of text. Every block is self-delimiting: a length is eight bytes,
//! least significant first, and a byte string is its length and its bytes.
//!
//! Each block has a spec function that writes it, a spec function that reads
//! it from the front of a byte sequence and hands back what is left, and a
//! lemma that reading what was written gives the value back.

use vstd::bytes::*;
use vstd::prelude::*;
use vstd::slice::*;
use vstd::utf8::*;

verus! {

/// Width of an encoded length.
pub const LEN_WIDTH: usize = 8;

/// Whether a length can be written down.
pub open spec fn fits(n: nat) -> bool {
    n <= u64::MAX
}

/// A length, written down.
pub open spec fn len_bytes(n: nat) -> Seq<u8> {
    spec_u64_to_le_bytes(n as u64)
}

/// Reads a length from the front of `s`.
pub open spec fn read_len(s: Seq<u8>) -> Option<(nat, Seq<u8>)> {
    if s.len() < 8 {
        None
    } else {
        Some((spec_u64_from_le_bytes(s.subrange(0, 8)) as nat, s.subrange(8, s.len() as int)))
    }
}

/// A byte string, written down: its length, then its bytes.
pub open spec fn blob(b: Seq<u8>) -> Seq<u8> {
    len_bytes(b.len()) + b
}

/// Reads a byte string from the front of `s`.
pub open spec fn read_blob(s: Seq<u8>) -> Option<(Seq<u8>, Seq<u8>)> {
    match read_len(s) {
        None => None,
        Some((n, rest)) => if rest.len() < n {
            None
        } else {
            Some((rest.subrange(0, n as int), rest.subrange(n as int, rest.len() as int)))
        },
    }
}

/// A fixed number of bytes from the front of `s`.
pub open spec fn read_exact(s: Seq<u8>, n: nat) -> Option<(Seq<u8>, Seq<u8>)> {
    if s.len() < n {
        None
    } else {
        Some((s.subrange(0, n as int), s.subrange(n as int, s.len() as int)))
    }
}

/// Text, written down: the byte string of its UTF-8 form.
pub open spec fn text(t: Seq<char>) -> Seq<u8> {
    blob(encode_utf8(t))
}

/// Whether text can be written down.
pub open spec fn text_fits(t: Seq<char>) -> bool {
    fits(encode_utf8(t).len())
}

/// Reads text from the front of `s`.
pub open spec fn read_text(s: Seq<u8>) -> Option<(Seq<char>, Seq<u8>)> {
    match read_blob(s) {
        None => None,
        Some((b, rest)) => if valid_utf8(b) {
            Some((decode_utf8(b), rest))
        } else {
            None
        },
    }
}

/// The items of a list of texts, one after the other.
pub open spec fn texts_body(ts: Seq<Seq<char>>) -> Seq<u8>
    decreases ts.len(),
{
    if ts.len() == 0 {
        Seq::empty()
    } else {
        text(ts[0]) + texts_body(ts.drop_first())
    }
}

/// A list of texts, written down: how many there are, then each of them.
pub open spec fn texts(ts: Seq<Seq<char>>) -> Seq<u8> {
    len_bytes(ts.len()) + texts_body(ts)
}

/// Whether a list of texts can be written down.
pub open spec fn texts_fit(ts: Seq<Seq<char>>) -> bool {
    &&& fits(ts.len())
    &&& forall|i: int| 0 <= i < ts.len() ==> text_fits(#[trigger] ts[i])
}

/// Reads `n` texts from the front of `s`.
pub open spec fn read_texts_body(s: Seq<u8>, n: nat) -> Option<(Seq<Seq<char>>, Seq<u8>)>
    decreases n,
{
    if n == 0 {
        Some((Seq::empty(), s))
    } else {
        match read_text(s) {
            None => None,
            Some((t, rest)) => match read_texts_body(rest, (n - 1) as nat) {
                None => None,
                Some((ts, last)) => Some((seq![t] + ts, last)),
            },
        }
    }
}

/// Reads a list of texts from the front of `s`.
pub open spec fn read_texts(s: Seq<u8>) -> Option<(Seq<Seq<char>>, Seq<u8>)> {
    match read_len(s) {
        None => None,
        Some((n, rest)) => read_texts_body(rest, n),
    }
}

/// A length that was written is read back, and what follows it is left.
pub proof fn lemma_read_len(n: nat, rest: Seq<u8>)
    requires
        fits(n),
    ensures
        read_len(len_bytes(n) + rest) == Some((n, rest)),
{
    lemma_auto_spec_u64_to_from_le_bytes();
    let s = len_bytes(n) + rest;
    assert(s.subrange(0, 8) =~= len_bytes(n));
    assert(s.subrange(8, s.len() as int) =~= rest);
}

/// A byte string that was written is read back.
pub proof fn lemma_read_blob(b: Seq<u8>, rest: Seq<u8>)
    requires
        fits(b.len()),
    ensures
        read_blob(blob(b) + rest) == Some((b, rest)),
{
    let tail = b + rest;
    assert(blob(b) + rest =~= len_bytes(b.len()) + tail);
    lemma_read_len(b.len(), tail);
    assert(tail.subrange(0, b.len() as int) =~= b);
    assert(tail.subrange(b.len() as int, tail.len() as int) =~= rest);
}

/// Bytes of a known number are read back.
pub proof fn lemma_read_exact(b: Seq<u8>, rest: Seq<u8>)
    ensures
        read_exact(b + rest, b.len()) == Some((b, rest)),
{
    let s = b + rest;
    assert(s.subrange(0, b.len() as int) =~= b);
    assert(s.subrange(b.len() as int, s.len() as int) =~= rest);
}

/// Text that was written is read back.
pub proof fn lemma_read_text(t: Seq<char>, rest: Seq<u8>)
    requires
        text_fits(t),
    ensures
        read_text(text(t) + rest) == Some((t, rest)),
{
    lemma_read_blob(encode_utf8(t), rest);
    encode_utf8_valid_utf8(t);
    encode_utf8_decode_utf8(t);
}

/// The items of a list of texts are read back.
pub proof fn lemma_read_texts_body(ts: Seq<Seq<char>>, rest: Seq<u8>)
    requires
        forall|i: int| 0 <= i < ts.len() ==> text_fits(#[trigger] ts[i]),
    ensures
        read_texts_body(texts_body(ts) + rest, ts.len()) == Some((ts, rest)),
    decreases ts.len(),
{
    if ts.len() == 0 {
        assert(texts_body(ts) + rest =~= rest);
        assert(ts =~= Seq::empty());
    } else {
        let tail = ts.drop_first();
        let after = texts_body(tail) + rest;
        assert(texts_body(ts) + rest =~= text(ts[0]) + after);
        assert(text_fits(ts[0]));
        lemma_read_text(ts[0], after);
        assert forall|i: int| 0 <= i < tail.len() implies text_fits(#[trigger] tail[i]) by {
            assert(tail[i] == ts[i + 1]);
        }
        lemma_read_texts_body(tail, rest);
        assert(seq![ts[0]] + tail =~= ts);
    }
}

/// A list of texts that was written is read back.
pub proof fn lemma_read_texts(ts: Seq<Seq<char>>, rest: Seq<u8>)
    requires
        texts_fit(ts),
    ensures
        read_texts(texts(ts) + rest) == Some((ts, rest)),
{
    let after = texts_body(ts) + rest;
    assert(texts(ts) + rest =~= len_bytes(ts.len()) + after);
    lemma_read_len(ts.len(), after);
    lemma_read_texts_body(ts, rest);
}

/// A length that was read had been written: what was read from is the
/// length, written down, and what is left.
pub proof fn lemma_len_was_written(s: Seq<u8>)
    ensures
        read_len(s) matches Some((n, rest)) ==> fits(n) && s == len_bytes(n) + rest,
{
    if s.len() >= 8 {
        lemma_auto_spec_u64_to_from_le_bytes();
        let head = s.subrange(0, 8);
        assert(spec_u64_to_le_bytes(spec_u64_from_le_bytes(head)) == head);
        assert(s =~= head + s.subrange(8, s.len() as int));
    }
}

/// A byte string that was read had been written.
pub proof fn lemma_blob_was_written(s: Seq<u8>)
    ensures
        read_blob(s) matches Some((b, rest)) ==> fits(b.len()) && s == blob(b) + rest,
{
    lemma_len_was_written(s);
    if let Some((n, after)) = read_len(s) {
        if after.len() >= n {
            let b = after.subrange(0, n as int);
            let rest = after.subrange(n as int, after.len() as int);
            assert(after =~= b + rest);
            assert(s =~= blob(b) + rest);
        }
    }
}

/// Bytes of a known number that were read stood at the front.
pub proof fn lemma_exact_was_written(s: Seq<u8>, n: nat)
    ensures
        read_exact(s, n) matches Some((b, rest)) ==> b.len() == n && s == b + rest,
{
    if s.len() >= n {
        assert(s =~= s.subrange(0, n as int) + s.subrange(n as int, s.len() as int));
    }
}

/// Text that was read had been written.
pub proof fn lemma_text_was_written(s: Seq<u8>)
    ensures
        read_text(s) matches Some((t, rest)) ==> text_fits(t) && s == text(t) + rest,
{
    lemma_blob_was_written(s);
    if let Some((b, rest)) = read_blob(s) {
        if valid_utf8(b) {
            decode_utf8_encode_utf8(b);
        }
    }
}

/// The items of a list of texts that were read had been written.
pub proof fn lemma_texts_body_was_written(s: Seq<u8>, n: nat)
    ensures
        read_texts_body(s, n) matches Some((ts, rest)) ==> {
            &&& ts.len() == n
            &&& forall|i: int| 0 <= i < ts.len() ==> text_fits(#[trigger] ts[i])
            &&& s == texts_body(ts) + rest
        },
    decreases n,
{
    if n == 0 {
        assert(s =~= texts_body(Seq::empty()) + s);
    } else {
        lemma_text_was_written(s);
        if let Some((t, after)) = read_text(s) {
            lemma_texts_body_was_written(after, (n - 1) as nat);
            if let Some((more, rest)) = read_texts_body(after, (n - 1) as nat) {
                let ts = seq![t] + more;
                assert(ts.drop_first() =~= more);
                assert(s =~= texts_body(ts) + rest);
                assert forall|i: int| 0 <= i < ts.len() implies text_fits(#[trigger] ts[i]) by {
                    if i > 0 {
                        assert(ts[i] == more[i - 1]);
                    }
                }
            }
        }
    }
}

/// A list of texts that was read had been written.
pub proof fn lemma_texts_were_written(s: Seq<u8>)
    ensures
        read_texts(s) matches Some((ts, rest)) ==> texts_fit(ts) && s == texts(ts) + rest,
{
    lemma_len_was_written(s);
    if let Some((n, after)) = read_len(s) {
        lemma_texts_body_was_written(after, n);
        if let Some((ts, rest)) = read_texts_body(after, n) {
            assert(s =~= texts(ts) + rest);
        }
    }
}

/// Appends bytes to a buffer.
pub fn put_bytes(out: &mut Vec<u8>, b: &[u8])
    ensures
        final(out)@ == old(out)@ + b@,
{
    let mut i: usize = 0;
    while i < b.len()
        invariant
            i <= b.len(),
            out@ == old(out)@ + b@.subrange(0, i as int),
        decreases b.len() - i,
    {
        out.push(b[i]);
        assert(b@.subrange(0, i + 1) =~= b@.subrange(0, i as int).push(b@[i as int]));
        i += 1;
    }
    assert(b@.subrange(0, i as int) =~= b@);
}

/// Appends a length to a buffer.
pub fn put_len(out: &mut Vec<u8>, n: usize)
    ensures
        final(out)@ == old(out)@ + len_bytes(n as nat),
{
    let width = u64_to_le_bytes(n as u64);
    put_bytes(out, width.as_slice());
}

/// Appends a byte string to a buffer.
pub fn put_blob(out: &mut Vec<u8>, b: &[u8])
    ensures
        final(out)@ == old(out)@ + blob(b@),
        fits(b@.len()),
{
    put_len(out, b.len());
    put_bytes(out, b);
    assert(out@ =~= old(out)@ + blob(b@));
}

/// Appends text to a buffer.
pub fn put_text(out: &mut Vec<u8>, t: &str)
    ensures
        final(out)@ == old(out)@ + text(t@),
        text_fits(t@),
{
    put_blob(out, t.as_bytes());
}

/// What is left of a buffer from `pos` on.
pub open spec fn tail(buf: Seq<u8>, pos: int) -> Seq<u8> {
    buf.subrange(pos, buf.len() as int)
}

/// Reads a length at `pos`; hands back the length and where it ends.
pub fn get_len(buf: &[u8], pos: usize) -> (r: Option<(u64, usize)>)
    requires
        pos <= buf@.len(),
    ensures
        match r {
            None => read_len(tail(buf@, pos as int)) is None,
            Some((n, end)) => pos <= end <= buf@.len() && read_len(tail(buf@, pos as int))
                == Some((n as nat, tail(buf@, end as int))),
        },
{
    if buf.len() - pos < LEN_WIDTH {
        return None;
    }
    let end = pos + LEN_WIDTH;
    let n = u64_from_le_bytes(slice_subrange(buf, pos, end));
    proof {
        let s = tail(buf@, pos as int);
        assert(s.subrange(0, 8) =~= buf@.subrange(pos as int, end as int));
        assert(s.subrange(8, s.len() as int) =~= tail(buf@, end as int));
    }
    Some((n, end))
}

/// Reads `n` bytes at `pos`; hands back the bytes and where they end.
pub fn get_exact(buf: &[u8], pos: usize, n: usize) -> (r: Option<(Vec<u8>, usize)>)
    requires
        pos <= buf@.len(),
    ensures
        match r {
            None => read_exact(tail(buf@, pos as int), n as nat) is None,
            Some((b, end)) => pos <= end <= buf@.len() && read_exact(
                tail(buf@, pos as int),
                n as nat,
            ) == Some((b@, tail(buf@, end as int))),
        },
{
    if buf.len() - pos < n {
        return None;
    }
    let end = pos + n;
    let b = slice_to_vec(slice_subrange(buf, pos, end));
    proof {
        let s = tail(buf@, pos as int);
        assert(s.subrange(0, n as int) =~= buf@.subrange(pos as int, end as int));
        assert(s.subrange(n as int, s.len() as int) =~= tail(buf@, end as int));
    }
    Some((b, end))
}

/// Reads a byte string at `pos`; hands back the bytes and where they end.
pub fn get_blob(buf: &[u8], pos: usize) -> (r: Option<(Vec<u8>, usize)>)
    requires
        pos <= buf@.len(),
    ensures
        match r {
            None => read_blob(tail(buf@, pos as int)) is None,
            Some((b, end)) => pos <= end <= buf@.len() && read_blob(tail(buf@, pos as int))
                == Some((b@, tail(buf@, end as int))),
        },
{
    match get_len(buf, pos) {
        None => None,
        Some((n, start)) => {
            if n > (buf.len() - start) as u64 {
                return None;
            }
            let r = get_exact(buf, start, n as usize);
            proof {
                let s = tail(buf@, start as int);
                assert(read_exact(s, n as nat) == Some(
                    (s.subrange(0, n as int), s.subrange(n as int, s.len() as int)),
                ));
            }
            r
        },
    }
}

/// Reads text at `pos`; hands back the text and where it ends.
pub fn get_text(buf: &[u8], pos: usize) -> (r: Option<(String, usize)>)
    requires
        pos <= buf@.len(),
    ensures
        match r {
            None => read_text(tail(buf@, pos as int)) is None,
            Some((t, end)) => pos <= end <= buf@.len() && read_text(tail(buf@, pos as int))
                == Some((t@, tail(buf@, end as int))),
        },
{
    match get_blob(buf, pos) {
        None => None,
        Some((b, end)) => match crate::text::from_utf8(b) {
            None => None,
            Some(t) => Some((t, end)),
        },
    }
}

/// Appends a list of texts to a buffer.
pub fn put_texts(out: &mut Vec<u8>, ts: &Vec<String>)
    ensures
        final(out)@ == old(out)@ + texts(ts.deep_view()),
        texts_fit(ts.deep_view()),
{
    let ghost all = ts.deep_view();
    put_len(out, ts.len());
    let ghost head = out@;
    assert(all.skip(0) =~= all);
    let mut i: usize = 0;
    while i < ts.len()
        invariant
            i <= ts.len(),
            all == ts.deep_view(),
            out@ + texts_body(all.skip(i as int)) == head + texts_body(all),
            forall|j: int| 0 <= j < i ==> text_fits(#[trigger] all[j]),
        decreases ts.len() - i,
    {
        let ghost before = out@;
        put_text(out, ts[i].as_str());
        proof {
            let rest = all.skip(i as int);
            assert(rest[0] == ts@[i as int]@);
            assert(rest.drop_first() =~= all.skip(i + 1));
            assert(out@ + texts_body(all.skip(i + 1)) =~= before + texts_body(rest));
        }
        i += 1;
    }
    proof {
        assert(all.skip(i as int) =~= Seq::<Seq<char>>::empty());
        assert(all.skip(0) =~= all);
        assert(out@ =~= old(out)@ + texts(all));
    }
}

/// Reads a list of texts at `pos`; hands back the texts and where they end.
pub fn get_texts(buf: &[u8], pos: usize) -> (r: Option<(Vec<String>, usize)>)
    requires
        pos <= buf@.len(),
    ensures
        match r {
            None => read_texts(tail(buf@, pos as int)) is None,
            Some((ts, end)) => pos <= end <= buf@.len() && read_texts(tail(buf@, pos as int))
                == Some((ts.deep_view(), tail(buf@, end as int))),
        },
{
    let (n, start) = match get_len(buf, pos) {
        None => { return None; },
        Some(found) => found,
    };
    let mut ts: Vec<String> = Vec::new();
    let mut at: usize = start;
    let mut i: u64 = 0;
    while i < n
        invariant
            i <= n,
            pos <= start <= at <= buf@.len(),
            read_texts(tail(buf@, pos as int)) == read_texts_body(
                tail(buf@, start as int),
                n as nat,
            ),
            read_texts_body(tail(buf@, start as int), n as nat) == match read_texts_body(
                tail(buf@, at as int),
                (n - i) as nat,
            ) {
                None => None,
                Some((more, last)) => Some((ts.deep_view() + more, last)),
            },
        decreases n - i,
    {
        let ghost before = ts.deep_view();
        match get_text(buf, at) {
            None => {
                assert(read_texts_body(tail(buf@, at as int), (n - i) as nat) is None);
                return None;
            },
            Some((t, end)) => {
                ts.push(t);
                proof {
                    let held = ts.deep_view();
                    assert(held =~= before + seq![t@]);
                    match read_texts_body(tail(buf@, end as int), (n - i - 1) as nat) {
                        None => {},
                        Some((more, last)) => {
                            assert(before + (seq![t@] + more) =~= held + more);
                        },
                    }
                }
                at = end;
            },
        }
        i += 1;
    }
    proof {
        assert(ts.deep_view() + Seq::<Seq<char>>::empty() =~= ts.deep_view());
    }
    Some((ts, at))
}

} // verus!
