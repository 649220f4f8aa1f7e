//! The signed message codec.
//!
//! An envelope travels as one line of text:
//!
//! ```text
//! {"nonce":"N","payload":{"k":"v",...},"signature":"S"}
//! ```
//!
//! The signature is the lowercase hex of an HMAC-SHA-256 tag computed
//! with the shared secret key over everything up to and including the
//! closing brace of the payload, so it binds both the session nonce and
//! the payload. Decoding recomputes the tag, compares it in constant
//! time, and checks the embedded nonce against the session's expected
//! nonce as a separate step: a forged message and a replayed message
//! fail differently.
use vstd::prelude::*;

use hmac::Mac;

use crate::payload::{entries_view, unique_keys, Payload};
use crate::text::{esc, escape_onto, hex_spec, string_push, to_hex};
use vstd::string::{StrSliceExecFns, StringExecFns};

verus! {

/// The authentication tag HMAC-SHA-256 yields for a key and a message,
/// both taken as text and hashed in their UTF-8 form. The tag is a
/// function of the two arguments alone.
pub uninterp spec fn hmac_tag(key: Seq<char>, msg: Seq<char>) -> Seq<u8>;

/// Relies on hmac's `Hmac<Sha256>`: the tag depends on the key and
/// message bytes alone and is 32 bytes long; `new_from_slice` accepts
/// a key of any length.
#[verifier::external_body]
fn hmac_sha256(key: &str, msg: &str) -> (r: Vec<u8>)
    ensures
        r@ == hmac_tag(key@, msg@),
        r@.len() == 32,
{
    let mut mac = <hmac::Hmac<sha2::Sha256> as Mac>::new_from_slice(key.as_bytes()).expect(
        "HMAC accepts keys of any length",
    );
    mac.update(msg.as_bytes());
    mac.finalize().into_bytes().to_vec()
}

/// One payload entry as it stands on the wire: `"k":"v"`.
pub open spec fn ser_entry(kv: (Seq<char>, Seq<char>)) -> Seq<char> {
    seq!['"'] + esc(kv.0) + seq!['"', ':', '"'] + esc(kv.1) + seq!['"']
}

/// The payload entries joined by commas.
pub open spec fn ser_entries(es: Seq<(Seq<char>, Seq<char>)>) -> Seq<char>
    decreases es.len(),
{
    if es.len() == 0 {
        Seq::empty()
    } else if es.len() == 1 {
        ser_entry(es[0])
    } else {
        ser_entry(es[0]) + seq![','] + ser_entries(es.drop_first())
    }
}

/// The part of the line the signature is computed over: nonce and
/// payload, up to and including the payload's closing brace.
pub open spec fn signed_text(nonce: Seq<char>, es: Seq<(Seq<char>, Seq<char>)>) -> Seq<char> {
    "{\"nonce\":\""@ + esc(nonce) + "\",\"payload\":{"@ + ser_entries(es) + seq!['}']
}

/// The signature an envelope with this key, nonce and payload carries.
pub open spec fn sig_of(key: Seq<char>, nonce: Seq<char>, es: Seq<(Seq<char>, Seq<char>)>) -> Seq<
    char,
> {
    hex_spec(hmac_tag(key, signed_text(nonce, es)))
}

/// A whole envelope, signature included, without the line terminator.
pub open spec fn envelope(
    nonce: Seq<char>,
    es: Seq<(Seq<char>, Seq<char>)>,
    sig: Seq<char>,
) -> Seq<char> {
    signed_text(nonce, es) + ",\"signature\":\""@ + esc(sig) + "\"}"@
}

/// What `encode` returns: the signed envelope as one newline-terminated
/// line.
pub open spec fn encoded_line(
    key: Seq<char>,
    nonce: Seq<char>,
    es: Seq<(Seq<char>, Seq<char>)>,
) -> Seq<char> {
    envelope(nonce, es, sig_of(key, nonce, es)) + seq!['\n']
}

/// Reads a quoted string's contents up to its closing quote: a raw
/// character stands for itself, a backslash must open a recognised
/// escape, and the input must not end before the closing quote.
/// Returns the contents and what follows the quote.
pub open spec fn scan_string(s: Seq<char>) -> Option<(Seq<char>, Seq<char>)>
    decreases s.len(),
{
    if s.len() == 0 {
        None
    } else if s[0] == '"' {
        Some((Seq::empty(), s.drop_first()))
    } else if s[0] == '\\' {
        if s.len() < 2 {
            None
        } else {
            match crate::text::unesc_char(s[1]) {
                None => None,
                Some(c) => match scan_string(s.skip(2)) {
                    None => None,
                    Some((t, r)) => Some((seq![c] + t, r)),
                },
            }
        }
    } else {
        match scan_string(s.drop_first()) {
            None => None,
            Some((t, r)) => Some((seq![s[0]] + t, r)),
        }
    }
}

/// A successful string scan consumes at least the closing quote.
pub proof fn lemma_scan_consumes(s: Seq<char>)
    ensures
        match scan_string(s) {
            Some((t, r)) => r.len() < s.len(),
            None => true,
        },
    decreases s.len(),
{
    if s.len() > 0 && s[0] != '"' {
        if s[0] == '\\' {
            if s.len() >= 2 {
                lemma_scan_consumes(s.skip(2));
            }
        } else {
            lemma_scan_consumes(s.drop_first());
        }
    }
}

/// Reads `"k":"v"` entries joined by commas up to the closing brace of
/// the payload object. Returns the entries in wire order and what
/// follows the brace.
pub open spec fn scan_entries(s: Seq<char>) -> Option<
    (Seq<(Seq<char>, Seq<char>)>, Seq<char>),
>
    decreases s.len(),
    via scan_entries_dec
{
    if s.len() == 0 {
        None
    } else if s[0] == '}' {
        Some((Seq::empty(), s.drop_first()))
    } else if s[0] == '"' {
        match scan_string(s.drop_first()) {
            None => None,
            Some((k, r1)) => if r1.len() < 2 || r1[0] != ':' || r1[1] != '"' {
                None
            } else {
                match scan_string(r1.skip(2)) {
                    None => None,
                    Some((v, r2)) => if r2.len() == 0 {
                        None
                    } else if r2[0] == ',' {
                        match scan_entries(r2.drop_first()) {
                            None => None,
                            Some((rest, r3)) => Some((seq![(k, v)] + rest, r3)),
                        }
                    } else if r2[0] == '}' {
                        Some((seq![(k, v)], r2.drop_first()))
                    } else {
                        None
                    },
                }
            },
        }
    } else {
        None
    }
}

#[via_fn]
proof fn scan_entries_dec(s: Seq<char>) {
    if s.len() > 0 && s[0] == '"' {
        lemma_scan_consumes(s.drop_first());
        if let Some((k, r1)) = scan_string(s.drop_first()) {
            if r1.len() >= 2 {
                lemma_scan_consumes(r1.skip(2));
            }
        }
    }
}

/// Splits off a fixed piece of syntax: the rest of the input if it
/// starts with `lit`, and nothing otherwise.
pub open spec fn expect_lit(s: Seq<char>, lit: Seq<char>) -> Option<Seq<char>> {
    if lit.len() <= s.len() && s.subrange(0, lit.len() as int) == lit {
        Some(s.skip(lit.len() as int))
    } else {
        None
    }
}

/// Parses one whole envelope; nothing may follow the closing brace.
pub open spec fn parse_envelope(s: Seq<char>) -> Option<
    (Seq<char>, Seq<(Seq<char>, Seq<char>)>, Seq<char>),
> {
    match expect_lit(s, "{\"nonce\":\""@) {
        None => None,
        Some(r0) => match scan_string(r0) {
            None => None,
            Some((nonce, r1)) => match expect_lit(r1, ",\"payload\":{"@) {
                None => None,
                Some(r2) => match scan_entries(r2) {
                    None => None,
                    Some((es, r3)) => match expect_lit(r3, ",\"signature\":\""@) {
                        None => None,
                        Some(r4) => match scan_string(r4) {
                            None => None,
                            Some((sig, r5)) => if r5 == seq!['}'] {
                                Some((nonce, es, sig))
                            } else {
                                None
                            },
                        },
                    },
                },
            },
        },
    }
}

/// A received line without its terminator: one trailing newline, and a
/// carriage return before it, are not part of the envelope.
pub open spec fn strip_eol(s: Seq<char>) -> Seq<char> {
    let t = if s.len() > 0 && s[s.len() - 1] == '\n' {
        s.drop_last()
    } else {
        s
    };
    if t.len() > 0 && t[t.len() - 1] == '\r' {
        t.drop_last()
    } else {
        t
    }
}

/// Exec form of `unesc_char`.
fn unesc_char_exec(c: char) -> (r: Option<char>)
    ensures
        r == crate::text::unesc_char(c),
{
    if c == '"' {
        Some('"')
    } else if c == '\\' {
        Some('\\')
    } else if c == 'n' {
        Some('\n')
    } else if c == 'r' {
        Some('\r')
    } else {
        None
    }
}

/// Exec string scan over `s` from position `i`, proved to agree with
/// `scan_string` on the rest of the input.
fn scan_string_exec(s: &str, i: usize) -> (r: Option<(String, usize)>)
    requires
        i <= s@.len(),
    ensures
        match r {
            Some(p) => i < p.1 <= s@.len() && scan_string(s@.skip(i as int)) == Some(
                (p.0@, s@.skip(p.1 as int)),
            ),
            None => scan_string(s@.skip(i as int)) is None,
        },
    decreases s@.len() - i,
{
    let ghost ss = s@.skip(i as int);
    let n = s.unicode_len();
    if i == n {
        return None;
    }
    let c = s.get_char(i);
    proof {
        assert(ss[0] == s@[i as int]);
        assert(ss.drop_first() =~= s@.skip(i + 1 as int));
    }
    if c == '"' {
        return Some((String::new(), i + 1));
    }
    if c == '\\' {
        if i + 1 == n {
            return None;
        }
        let e = s.get_char(i + 1);
        proof {
            assert(ss[1] == s@[i + 1 as int]);
            assert(ss.skip(2) =~= s@.skip(i + 2 as int));
        }
        match unesc_char_exec(e) {
            None => None,
            Some(cc) => {
                match scan_string_exec(s, i + 2) {
                    None => None,
                    Some((t, j)) => {
                        let mut out = String::new();
                        string_push(&mut out, cc);
                        out.append(t.as_str());
                        proof {
                            assert(out@ =~= seq![cc] + t@);
                        }
                        Some((out, j))
                    },
                }
            },
        }
    } else {
        match scan_string_exec(s, i + 1) {
            None => None,
            Some((t, j)) => {
                let mut out = String::new();
                string_push(&mut out, c);
                out.append(t.as_str());
                proof {
                    assert(out@ =~= seq![c] + t@);
                }
                Some((out, j))
            },
        }
    }
}

/// Exec check that the input continues with a fixed piece of syntax.
fn expect_lit_exec(s: &str, i: usize, lit: &str) -> (r: Option<usize>)
    requires
        i <= s@.len(),
    ensures
        match r {
            Some(j) => i <= j <= s@.len() && expect_lit(s@.skip(i as int), lit@) == Some(
                s@.skip(j as int),
            ),
            None => expect_lit(s@.skip(i as int), lit@) is None,
        },
{
    let ghost ss = s@.skip(i as int);
    let n = s.unicode_len();
    let m = lit.unicode_len();
    if n - i < m {
        return None;
    }
    let mut k: usize = 0;
    while k < m
        invariant
            n == s@.len(),
            m == lit@.len(),
            i + m <= n,
            k <= m,
            ss == s@.skip(i as int),
            forall|t: int| 0 <= t < k ==> s@[i + t] == lit@[t],
        decreases m - k,
    {
        let a = s.get_char(i + k);
        let b = lit.get_char(k);
        if a != b {
            proof {
                let sub = ss.subrange(0, m as int);
                assert(ss.len() == s@.len() - i);
                assert(sub[k as int] == ss[k as int]);
                assert(ss[k as int] == s@[k + i]);
                assert(sub[k as int] != lit@[k as int]);
                assert(sub != lit@);
            }
            return None;
        }
        k += 1;
    }
    proof {
        assert(ss.subrange(0, m as int) =~= lit@);
        assert(ss.skip(m as int) =~= s@.skip((i + m) as int));
    }
    Some(i + m)
}

/// Exec scan of the payload object's entries from position `i`.
fn scan_entries_exec(s: &str, i: usize) -> (r: Option<(Vec<(String, String)>, usize)>)
    requires
        i <= s@.len(),
    ensures
        match r {
            Some(p) => i < p.1 <= s@.len() && scan_entries(s@.skip(i as int)) == Some(
                (entries_view(p.0@), s@.skip(p.1 as int)),
            ),
            None => scan_entries(s@.skip(i as int)) is None,
        },
    decreases s@.len() - i,
{
    let ghost ss = s@.skip(i as int);
    let n = s.unicode_len();
    if i == n {
        return None;
    }
    let c = s.get_char(i);
    proof {
        assert(ss[0] == s@[i as int]);
        assert(ss.drop_first() =~= s@.skip(i + 1 as int));
    }
    if c == '}' {
        let empty: Vec<(String, String)> = Vec::new();
        proof {
            assert(entries_view(empty@) =~= Seq::<(Seq<char>, Seq<char>)>::empty());
        }
        return Some((empty, i + 1));
    }
    if c != '"' {
        return None;
    }
    match scan_string_exec(s, i + 1) {
        None => None,
        Some((k, j1)) => {
            let ghost r1 = s@.skip(j1 as int);
            if n - j1 < 2 {
                return None;
            }
            let c1 = s.get_char(j1);
            let c2 = s.get_char(j1 + 1);
            proof {
                assert(r1[0] == s@[j1 as int]);
                assert(r1[1] == s@[j1 + 1 as int]);
                assert(r1.skip(2) =~= s@.skip(j1 + 2 as int));
            }
            if c1 != ':' || c2 != '"' {
                return None;
            }
            match scan_string_exec(s, j1 + 2) {
                None => None,
                Some((v, j2)) => {
                    let ghost r2 = s@.skip(j2 as int);
                    if j2 == n {
                        return None;
                    }
                    let c3 = s.get_char(j2);
                    proof {
                        assert(r2[0] == s@[j2 as int]);
                        assert(r2.drop_first() =~= s@.skip(j2 + 1 as int));
                    }
                    if c3 == ',' {
                        match scan_entries_exec(s, j2 + 1) {
                            None => None,
                            Some((rest, j3)) => {
                                let mut out = rest;
                                let ghost rest_view = entries_view(out@);
                                out.insert(0, (k, v));
                                proof {
                                    assert(entries_view(out@) =~= seq![(k@, v@)] + rest_view);
                                }
                                Some((out, j3))
                            },
                        }
                    } else if c3 == '}' {
                        let mut one: Vec<(String, String)> = Vec::new();
                        one.push((k, v));
                        proof {
                            assert(entries_view(one@) =~= seq![(k@, v@)]);
                        }
                        Some((one, j2 + 1))
                    } else {
                        None
                    }
                },
            }
        },
    }
}

/// Exec parse of one whole envelope line (terminator already removed).
fn parse_envelope_exec(s: &str) -> (r: Option<(String, Vec<(String, String)>, String)>)
    ensures
        match r {
            Some(t) => parse_envelope(s@) == Some((t.0@, entries_view(t.1@), t.2@)),
            None => parse_envelope(s@) is None,
        },
{
    proof {
        assert(s@.skip(0) =~= s@);
    }
    let j0 = match expect_lit_exec(s, 0, "{\"nonce\":\"") {
        None => {
            return None;
        },
        Some(j) => j,
    };
    let (nonce, j1) = match scan_string_exec(s, j0) {
        None => {
            return None;
        },
        Some(p) => p,
    };
    let j2 = match expect_lit_exec(s, j1, ",\"payload\":{") {
        None => {
            return None;
        },
        Some(j) => j,
    };
    let (entries, j3) = match scan_entries_exec(s, j2) {
        None => {
            return None;
        },
        Some(p) => p,
    };
    let j4 = match expect_lit_exec(s, j3, ",\"signature\":\"") {
        None => {
            return None;
        },
        Some(j) => j,
    };
    let (sig, j5) = match scan_string_exec(s, j4) {
        None => {
            return None;
        },
        Some(p) => p,
    };
    let n = s.unicode_len();
    if n - j5 != 1 {
        proof {
            assert(s@.skip(j5 as int).len() != 1);
        }
        return None;
    }
    let cl = s.get_char(j5);
    proof {
        assert(s@.skip(j5 as int)[0] == s@[j5 as int]);
    }
    if cl != '}' {
        proof {
            assert(s@.skip(j5 as int) != seq!['}']);
        }
        return None;
    }
    proof {
        assert(s@.skip(j5 as int) =~= seq!['}']);
    }
    Some((nonce, entries, sig))
}

/// Why a line was rejected: it is not a well-formed envelope, its
/// signature does not match, or its nonce is not this session's.
#[derive(Clone, Copy, Debug, PartialEq, Eq, Structural)]
pub enum DecodeError {
    ParseError,
    AuthError,
    ReplayError,
}

/// What `decode` returns for a line, a key and an expected nonce:
/// the payload entries of a well-formed envelope whose signature was
/// computed over its nonce and payload with this key and whose nonce is
/// the expected one; otherwise the first error in the order parse,
/// authenticate, check freshness.
pub open spec fn decode_spec(line: Seq<char>, key: Seq<char>, expected_nonce: Seq<char>) -> Result<
    Seq<(Seq<char>, Seq<char>)>,
    DecodeError,
> {
    match parse_envelope(strip_eol(line)) {
        None => Err(DecodeError::ParseError),
        Some((nonce, es, sig)) => if !unique_keys(es) {
            Err(DecodeError::ParseError)
        } else if sig != sig_of(key, nonce, es) {
            Err(DecodeError::AuthError)
        } else if nonce != expected_nonce {
            Err(DecodeError::ReplayError)
        } else {
            Ok(es)
        },
    }
}

/// Whether two entries share a key.
fn has_dup_keys(entries: &Vec<(String, String)>) -> (r: bool)
    ensures
        r == !unique_keys(entries_view(entries@)),
{
    let ghost evs = entries_view(entries@);
    let n = entries.len();
    let mut i: usize = 0;
    while i < n
        invariant
            n == entries@.len(),
            evs == entries_view(entries@),
            i <= n,
            forall|a: int, b: int| 0 <= a < b < evs.len() && a < i ==> evs[a].0 != evs[b].0,
        decreases n - i,
    {
        let mut j: usize = i + 1;
        while j < n
            invariant
                n == entries@.len(),
                evs == entries_view(entries@),
                i < j <= n,
                forall|b: int| i < b < j ==> evs[i as int].0 != evs[b].0,
            decreases n - j,
        {
            if crate::text::str_eq(entries[i].0.as_str(), entries[j].0.as_str()) {
                proof {
                    assert(evs[i as int].0 == entries@[i as int].0@);
                    assert(evs[j as int].0 == entries@[j as int].0@);
                    assert(evs[i as int].0 == evs[j as int].0);
                    assert(!unique_keys(evs));
                }
                return true;
            }
            j += 1;
        }
        i += 1;
    }
    false
}

/// Parses one line as an envelope, verifies its signature with the
/// shared key in constant time, and checks its nonce against this
/// session's, reporting the three failures apart.
pub fn decode(line: &str, key: &str, expected_nonce: &str) -> (r: Result<Payload, DecodeError>)
    ensures
        match r {
            Ok(p) => decode_spec(line@, key@, expected_nonce@) == Ok::<_, DecodeError>(p@)
                && p.wf(),
            Err(e) => decode_spec(line@, key@, expected_nonce@) == Err::<
                Seq<(Seq<char>, Seq<char>)>,
                _,
            >(e),
        },
{
    let mut end = line.unicode_len();
    if end > 0 && line.get_char(end - 1) == '\n' {
        end -= 1;
    }
    if end > 0 && line.get_char(end - 1) == '\r' {
        end -= 1;
    }
    let t = line.substring_char(0, end);
    proof {
        assert(t@ =~= strip_eol(line@));
    }
    match parse_envelope_exec(t) {
        None => Err(DecodeError::ParseError),
        Some((nonce, entries, sig)) => {
            if has_dup_keys(&entries) {
                return Err(DecodeError::ParseError);
            }
            let st = build_signed_text(nonce.as_str(), &entries);
            let tag = hmac_sha256(key, st.as_str());
            let computed = to_hex(&tag);
            if !crate::text::ct_eq(computed.as_str(), sig.as_str()) {
                return Err(DecodeError::AuthError);
            }
            if !crate::text::str_eq(nonce.as_str(), expected_nonce) {
                return Err(DecodeError::ReplayError);
            }
            Ok(Payload { entries })
        },
    }
}

/// Appending an entry serializes as the entries so far, a comma where
/// one is owed, then the new entry.
pub proof fn lemma_ser_entries_snoc(es: Seq<(Seq<char>, Seq<char>)>, kv: (Seq<char>, Seq<char>))
    ensures
        ser_entries(es.push(kv)) == if es.len() == 0 {
            ser_entry(kv)
        } else {
            (ser_entries(es) + seq![','] + ser_entry(kv))
        },
    decreases es.len(),
{
    let p = es.push(kv);
    if es.len() == 0 {
        assert(p.len() == 1);
        assert(p[0] == kv);
    } else {
        assert(p[0] == es[0]);
        assert(p.drop_first() =~= es.drop_first().push(kv));
        lemma_ser_entries_snoc(es.drop_first(), kv);
        if es.len() == 1 {
            assert(es.drop_first().len() == 0);
            assert(ser_entries(p) =~= ser_entries(es) + seq![','] + ser_entry(kv));
        } else {
            assert(ser_entries(p) =~= ser_entries(es) + seq![','] + ser_entry(kv));
        }
    }
}

/// Appends `"k":"v"` pairs joined by commas.
fn build_entries_onto(out: &mut String, entries: &Vec<(String, String)>)
    ensures
        final(out)@ == old(out)@ + ser_entries(entries_view(entries@)),
{
    let ghost evs = entries_view(entries@);
    let n = entries.len();
    let mut i: usize = 0;
    proof {
        assert(evs.subrange(0, 0) =~= Seq::<(Seq<char>, Seq<char>)>::empty());
        assert(out@ =~= old(out)@ + ser_entries(evs.subrange(0, 0)));
    }
    while i < n
        invariant
            n == entries@.len(),
            i <= n,
            evs == entries_view(entries@),
            evs.len() == n,
            out@ == old(out)@ + ser_entries(evs.subrange(0, i as int)),
        decreases n - i,
    {
        if i > 0 {
            string_push(out, ',');
        }
        string_push(out, '"');
        escape_onto(out, entries[i].0.as_str());
        out.append("\":\"");
        escape_onto(out, entries[i].1.as_str());
        string_push(out, '"');
        proof {
            let pre = evs.subrange(0, i as int);
            assert(evs.subrange(0, i + 1 as int) =~= pre.push(evs[i as int]));
            lemma_ser_entries_snoc(pre, evs[i as int]);
            assert(evs[i as int].0 == entries@[i as int].0@);
            assert(evs[i as int].1 == entries@[i as int].1@);
            assert("\":\""@ =~= seq!['"', ':', '"']) by {
                reveal_strlit("\":\"");
            }
            assert(out@ =~= old(out)@ + ser_entries(evs.subrange(0, i + 1 as int)));
        }
        i += 1;
    }
    proof {
        assert(evs.subrange(0, n as int) =~= evs);
    }
}

/// The text the signature covers, built from parts already parsed or
/// about to be sent.
fn build_signed_text(nonce: &str, entries: &Vec<(String, String)>) -> (r: String)
    ensures
        r@ == signed_text(nonce@, entries_view(entries@)),
{
    let mut st = String::new();
    st.append("{\"nonce\":\"");
    escape_onto(&mut st, nonce);
    st.append("\",\"payload\":{");
    build_entries_onto(&mut st, entries);
    string_push(&mut st, '}');
    proof {
        assert(st@ =~= signed_text(nonce@, entries_view(entries@)));
    }
    st
}

pub proof fn lemma_expect_lit_prefix(lit: Seq<char>, r: Seq<char>)
    ensures
        expect_lit(lit + r, lit) == Some(r),
{
    assert((lit + r).subrange(0, lit.len() as int) =~= lit);
    assert((lit + r).skip(lit.len() as int) =~= r);
}

/// Scanning an escaped string followed by its closing quote yields the
/// string back and leaves exactly what follows the quote.
pub proof fn lemma_scan_string_esc(x: Seq<char>, r: Seq<char>)
    ensures
        scan_string(esc(x) + seq!['"'] + r) == Some((x, r)),
    decreases x.len(),
{
    let s = esc(x) + seq!['"'] + r;
    if x.len() == 0 {
        assert(esc(x) =~= Seq::<char>::empty());
        assert(s[0] == '"');
        assert(s.drop_first() =~= r);
    } else {
        let c = x[0];
        let x2 = x.drop_first();
        crate::text::lemma_esc_concat(seq![c], x2);
        assert(seq![c] + x2 =~= x);
        assert(seq![c].drop_first() =~= Seq::<char>::empty());
        assert(esc(Seq::<char>::empty()) =~= Seq::<char>::empty());
        assert(esc(seq![c]) =~= crate::text::esc_char(c));
        assert(esc(x) =~= crate::text::esc_char(c) + esc(x2));
        lemma_scan_string_esc(x2, r);
        let s2 = esc(x2) + seq!['"'] + r;
        if c == '"' || c == '\\' || c == '\n' || c == '\r' {
            let e: char = if c == '"' {
                '"'
            } else if c == '\\' {
                '\\'
            } else if c == '\n' {
                'n'
            } else {
                'r'
            };
            assert(crate::text::esc_char(c) =~= seq!['\\', e]);
            assert(s[0] == '\\');
            assert(s[1] == e);
            assert(crate::text::unesc_char(e) == Some(c));
            assert(s.skip(2) =~= s2);
            assert(scan_string(s) == Some((seq![c] + x2, r)));
            assert(seq![c] + x2 =~= x);
        } else {
            assert(crate::text::esc_char(c) =~= seq![c]);
            assert(s[0] == c);
            assert(s.drop_first() =~= s2);
            assert(scan_string(s) == Some((seq![c] + x2, r)));
            assert(seq![c] + x2 =~= x);
        }
    }
}

/// Scanning serialized entries followed by the closing brace yields the
/// entries back and leaves exactly what follows the brace.
pub proof fn lemma_scan_entries_ser(es: Seq<(Seq<char>, Seq<char>)>, r: Seq<char>)
    ensures
        scan_entries(ser_entries(es) + seq!['}'] + r) == Some((es, r)),
    decreases es.len(),
{
    let s = ser_entries(es) + seq!['}'] + r;
    if es.len() == 0 {
        assert(ser_entries(es) =~= Seq::<char>::empty());
        assert(s[0] == '}');
        assert(s.drop_first() =~= r);
        assert(es =~= Seq::<(Seq<char>, Seq<char>)>::empty());
    } else {
        let k = es[0].0;
        let v = es[0].1;
        let rest = es.drop_first();
        let tail: Seq<char> = if es.len() == 1 {
            Seq::empty()
        } else {
            (seq![','] + ser_entries(rest))
        };
        assert(ser_entries(es) =~= ser_entry(es[0]) + tail);
        assert(s[0] == '"');
        let after_k = seq!['"', ':', '"'] + esc(v) + seq!['"'] + tail + seq!['}'] + r;
        assert(s.drop_first() =~= esc(k) + seq!['"'] + (seq![':', '"'] + esc(v) + seq!['"'] + tail
            + seq!['}'] + r));
        lemma_scan_string_esc(k, seq![':', '"'] + esc(v) + seq!['"'] + tail + seq!['}'] + r);
        let r1 = seq![':', '"'] + esc(v) + seq!['"'] + tail + seq!['}'] + r;
        assert(scan_string(s.drop_first()) == Some((k, r1)));
        assert(r1.len() >= 2);
        assert(r1[0] == ':');
        assert(r1[1] == '"');
        assert(r1.skip(2) =~= esc(v) + seq!['"'] + (tail + seq!['}'] + r));
        lemma_scan_string_esc(v, tail + seq!['}'] + r);
        let r2 = tail + seq!['}'] + r;
        assert(scan_string(r1.skip(2)) == Some((v, r2)));
        if es.len() == 1 {
            assert(r2 =~= seq!['}'] + r);
            assert(r2[0] == '}');
            assert(r2.drop_first() =~= r);
            assert(seq![(k, v)] =~= es);
        } else {
            assert(r2 =~= seq![','] + (ser_entries(rest) + seq!['}'] + r));
            assert(r2[0] == ',');
            assert(r2.drop_first() =~= ser_entries(rest) + seq!['}'] + r);
            lemma_scan_entries_ser(rest, r);
            assert(scan_entries(r2.drop_first()) == Some((rest, r)));
            assert(seq![(k, v)] + rest =~= es);
        }
    }
}

/// Parsing an envelope built from parts yields the parts back.
pub proof fn lemma_parse_envelope_of_envelope(
    nonce: Seq<char>,
    es: Seq<(Seq<char>, Seq<char>)>,
    sig: Seq<char>,
)
    ensures
        parse_envelope(envelope(nonce, es, sig)) == Some((nonce, es, sig)),
{
    let s = envelope(nonce, es, sig);
    let lit1 = "{\"nonce\":\""@;
    let lit2full = "\",\"payload\":{"@;
    let lit2 = ",\"payload\":{"@;
    let lit3 = ",\"signature\":\""@;
    let lit4 = "\"}"@;
    reveal_strlit("{\"nonce\":\"");
    reveal_strlit("\",\"payload\":{");
    reveal_strlit(",\"payload\":{");
    reveal_strlit(",\"signature\":\"");
    reveal_strlit("\"}");
    assert(lit2full =~= seq!['"'] + lit2);
    assert(lit4 =~= seq!['"'] + seq!['}']);
    let rest1 = esc(nonce) + seq!['"'] + (lit2 + ser_entries(es) + seq!['}'] + lit3 + esc(sig)
        + seq!['"'] + seq!['}']);
    assert(s =~= lit1 + rest1);
    lemma_expect_lit_prefix(lit1, rest1);
    assert(expect_lit(s, lit1) == Some(rest1));
    lemma_scan_string_esc(
        nonce,
        lit2 + ser_entries(es) + seq!['}'] + lit3 + esc(sig) + seq!['"'] + seq!['}'],
    );
    let r1 = lit2 + ser_entries(es) + seq!['}'] + lit3 + esc(sig) + seq!['"'] + seq!['}'];
    assert(scan_string(rest1) == Some((nonce, r1)));
    let r2 = ser_entries(es) + seq!['}'] + (lit3 + esc(sig) + seq!['"'] + seq!['}']);
    assert(r1 =~= lit2 + r2);
    lemma_expect_lit_prefix(lit2, r2);
    assert(expect_lit(r1, lit2) == Some(r2));
    lemma_scan_entries_ser(es, lit3 + esc(sig) + seq!['"'] + seq!['}']);
    let r3 = lit3 + esc(sig) + seq!['"'] + seq!['}'];
    assert(scan_entries(r2) == Some((es, r3)));
    let r4 = esc(sig) + seq!['"'] + seq!['}'];
    assert(r3 =~= lit3 + r4);
    lemma_expect_lit_prefix(lit3, r4);
    assert(expect_lit(r3, lit3) == Some(r4));
    lemma_scan_string_esc(sig, seq!['}']);
    assert(scan_string(r4) == Some((sig, seq!['}'])));
}

/// Round-trip: a line encoded with a key and a nonce decodes, with the
/// same key and the same expected nonce, to exactly the payload that
/// was encoded, whatever the payload, key and nonce are.
pub proof fn lemma_round_trip(key: Seq<char>, nonce: Seq<char>, es: Seq<(Seq<char>, Seq<char>)>)
    requires
        unique_keys(es),
    ensures
        decode_spec(encoded_line(key, nonce, es), key, nonce) == Ok::<_, DecodeError>(es),
{
    let sig = sig_of(key, nonce, es);
    let env = envelope(nonce, es, sig);
    let line = encoded_line(key, nonce, es);
    reveal_strlit("\"}");
    assert(env.len() > 0);
    assert(env[env.len() - 1] == '}');
    assert(line[line.len() - 1] == '\n');
    assert(line.drop_last() =~= env);
    assert(strip_eol(line) =~= env);
    lemma_parse_envelope_of_envelope(nonce, es, sig);
}

/// Authenticity: a line signed with one key never decodes under a
/// different key; it fails as AuthError whatever the expected nonce is.
/// The only exception would be an HMAC collision between the two keys
/// on this very message, which the hypothesis rules out.
pub proof fn lemma_authenticity(
    key_sign: Seq<char>,
    key_verify: Seq<char>,
    nonce: Seq<char>,
    expected_nonce: Seq<char>,
    es: Seq<(Seq<char>, Seq<char>)>,
)
    requires
        unique_keys(es),
        hmac_tag(key_sign, signed_text(nonce, es)) != hmac_tag(key_verify, signed_text(nonce, es)),
    ensures
        decode_spec(encoded_line(key_sign, nonce, es), key_verify, expected_nonce) == Err::<
            Seq<(Seq<char>, Seq<char>)>,
            _,
        >(DecodeError::AuthError),
{
    let sig = sig_of(key_sign, nonce, es);
    let line = encoded_line(key_sign, nonce, es);
    let env = envelope(nonce, es, sig);
    reveal_strlit("\"}");
    assert(env[env.len() - 1] == '}');
    assert(line.drop_last() =~= env);
    assert(strip_eol(line) =~= env);
    lemma_parse_envelope_of_envelope(nonce, es, sig);
    if sig == sig_of(key_verify, nonce, es) {
        crate::text::lemma_hex_injective(
            hmac_tag(key_sign, signed_text(nonce, es)),
            hmac_tag(key_verify, signed_text(nonce, es)),
        );
    }
    assert(sig != sig_of(key_verify, nonce, es));
}

/// Freshness: a line whose embedded nonce is not the session's expected
/// nonce fails as ReplayError, even though its signature is valid under
/// the shared key.
pub proof fn lemma_freshness(
    key: Seq<char>,
    nonce: Seq<char>,
    expected_nonce: Seq<char>,
    es: Seq<(Seq<char>, Seq<char>)>,
)
    requires
        unique_keys(es),
        nonce != expected_nonce,
    ensures
        decode_spec(encoded_line(key, nonce, es), key, expected_nonce) == Err::<
            Seq<(Seq<char>, Seq<char>)>,
            _,
        >(DecodeError::ReplayError),
{
    let sig = sig_of(key, nonce, es);
    let line = encoded_line(key, nonce, es);
    let env = envelope(nonce, es, sig);
    reveal_strlit("\"}");
    assert(env[env.len() - 1] == '}');
    assert(line.drop_last() =~= env);
    assert(strip_eol(line) =~= env);
    lemma_parse_envelope_of_envelope(nonce, es, sig);
}

/// Serializes the payload, signs the (nonce, payload) pair with the
/// shared key, and frames everything as one newline-terminated line.
pub fn encode(key: &str, nonce: &str, payload: &Payload) -> (line: String)
    ensures
        line@ == encoded_line(key@, nonce@, payload@),
{
    let mut line = build_signed_text(nonce, &payload.entries);
    let tag = hmac_sha256(key, line.as_str());
    let sig = to_hex(&tag);
    line.append(",\"signature\":\"");
    escape_onto(&mut line, sig.as_str());
    line.append("\"}");
    string_push(&mut line, '\n');
    proof {
        assert(line@ =~= encoded_line(key@, nonce@, payload@));
    }
    line
}

} // verus!
