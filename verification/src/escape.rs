//! Escaping utilities: HTML-body escaping, URL/attribute escaping, and the
//! small byte-level helpers (ASCII literals, decimal digits, info-string
//! tokens) the renderer builds its output from.

use vstd::prelude::*;

verus! {

/// The bytes of an ASCII string, one byte per character (a character outside
/// ASCII is truncated to its low byte; every literal this crate passes here
/// is ASCII).
pub open spec fn lit(s: Seq<char>) -> Seq<u8> {
    Seq::new(s.len(), |i: int| (s[i] as u32) as u8)
}

/// Append the bytes of an ASCII string literal to the output buffer.
pub fn push_lit(buf: &mut Vec<u8>, s: &str)
    ensures
        final(buf)@ == old(buf)@ + lit(s@),
{
    let n = s.unicode_len();
    let mut i: usize = 0;
    while i < n
        invariant
            n == s@.len(),
            i <= n,
            buf@ == old(buf)@ + lit(s@).take(i as int),
        decreases n - i,
    {
        let c = s.get_char(i);
        let b: u8 = #[verifier::truncate] ((c as u32) as u8);
        buf.push(b);
        proof {
            assert(lit(s@).take(i + 1) =~= lit(s@).take(i as int).push(lit(s@)[i as int]));
            assert(buf@ =~= old(buf)@ + lit(s@).take(i + 1));
        }
        i += 1;
    }
    proof {
        assert(lit(s@).take(n as int) =~= lit(s@));
    }
}

/// The bytes of an ASCII string literal as an owned vector.
pub fn lit_vec(s: &str) -> (v: Vec<u8>)
    ensures
        v@ == lit(s@),
{
    let mut v: Vec<u8> = Vec::new();
    push_lit(&mut v, s);
    v
}

/// Append all bytes of `s` to the output buffer.
pub fn push_bytes(buf: &mut Vec<u8>, s: &Vec<u8>)
    ensures
        final(buf)@ == old(buf)@ + s@,
{
    let mut i: usize = 0;
    while i < s.len()
        invariant
            i <= s@.len(),
            buf@ == old(buf)@ + s@.take(i as int),
        decreases s@.len() - i,
    {
        buf.push(s[i]);
        proof {
            assert(s@.take(i + 1) =~= s@.take(i as int).push(s@[i as int]));
            assert(buf@ =~= old(buf)@ + s@.take(i + 1));
        }
        i += 1;
    }
    proof {
        assert(s@.take(s@.len() as int) =~= s@);
    }
}

/// Whether two byte strings hold the same bytes.
pub fn bytes_eq(a: &Vec<u8>, b: &Vec<u8>) -> (r: bool)
    ensures
        r == (a@ == b@),
{
    if a.len() != b.len() {
        return false;
    }
    let mut i: usize = 0;
    while i < a.len()
        invariant
            i <= a@.len(),
            a@.len() == b@.len(),
            forall|k: int| 0 <= k < i ==> a@[k] == b@[k],
        decreases a@.len() - i,
    {
        if a[i] != b[i] {
            return false;
        }
        i += 1;
    }
    proof {
        assert(a@ =~= b@);
    }
    true
}

/// What the HTML-body escape emits for one byte: `"` `&` `<` `>` become
/// entities, `/` becomes an entity only under the secure flag, and every
/// other byte passes through unchanged.
pub open spec fn esc_html_byte(b: u8, secure: bool) -> Seq<u8> {
    if b == 34 {
        lit("&quot;"@)
    } else if b == 38 {
        lit("&amp;"@)
    } else if b == 47 && secure {
        lit("&#47;"@)
    } else if b == 60 {
        lit("&lt;"@)
    } else if b == 62 {
        lit("&gt;"@)
    } else {
        seq![b]
    }
}

/// The HTML-body escape of a byte string.
pub open spec fn html_escaped(s: Seq<u8>, secure: bool) -> Seq<u8>
    decreases s.len(),
{
    if s.len() == 0 {
        Seq::empty()
    } else {
        html_escaped(s.drop_last(), secure) + esc_html_byte(s.last(), secure)
    }
}

/// Append the HTML-body escape of `s` to the output buffer, replacing
/// `"` `&` `<` `>` (and `/` when `secure` is set) by character entities and
/// passing every other byte through unchanged.
pub fn escape_html(ob: &mut Vec<u8>, s: &Vec<u8>, secure: bool)
    ensures
        final(ob)@ == old(ob)@ + html_escaped(s@, secure),
{
    let mut i: usize = 0;
    while i < s.len()
        invariant
            i <= s@.len(),
            ob@ == old(ob)@ + html_escaped(s@.take(i as int), secure),
        decreases s@.len() - i,
    {
        let b = s[i];
        if b == 34 {
            push_lit(ob, "&quot;");
        } else if b == 38 {
            push_lit(ob, "&amp;");
        } else if b == 47 && secure {
            push_lit(ob, "&#47;");
        } else if b == 60 {
            push_lit(ob, "&lt;");
        } else if b == 62 {
            push_lit(ob, "&gt;");
        } else {
            ob.push(b);
        }
        proof {
            assert(s@.take(i + 1).drop_last() =~= s@.take(i as int));
            assert(s@.take(i + 1).last() == s@[i as int]);
            assert(ob@ =~= old(ob)@ + html_escaped(s@.take(i + 1), secure));
        }
        i += 1;
    }
    proof {
        assert(s@.take(s@.len() as int) =~= s@);
    }
}

/// The bytes that pass through the URL/attribute escape unchanged: letters,
/// digits, and the punctuation allow-list used in URLs.
pub open spec fn href_safe(b: u8) -> bool {
    b == 33 || (35 <= b && b <= 37) || (40 <= b && b <= 59) || b == 61 || (63 <= b && b <= 90)
        || b == 95 || (97 <= b && b <= 122)
}

/// The ASCII byte of one uppercase hexadecimal digit.
pub open spec fn hex_digit(n: u8) -> u8
    recommends
        n < 16,
{
    if n < 10 {
        (48 + n) as u8
    } else {
        (55 + n) as u8
    }
}

/// What the URL/attribute escape emits for one byte: safe bytes pass through,
/// `&` and `'` become entities, and every other byte becomes a percent
/// triplet.
pub open spec fn esc_href_byte(b: u8) -> Seq<u8> {
    if href_safe(b) {
        seq![b]
    } else if b == 38 {
        lit("&amp;"@)
    } else if b == 39 {
        lit("&#x27;"@)
    } else {
        seq![37u8, hex_digit(b / 16), hex_digit(b % 16)]
    }
}

/// The URL/attribute escape of a byte string.
pub open spec fn href_escaped(s: Seq<u8>) -> Seq<u8>
    decreases s.len(),
{
    if s.len() == 0 {
        Seq::empty()
    } else {
        href_escaped(s.drop_last()) + esc_href_byte(s.last())
    }
}

fn is_href_safe(b: u8) -> (r: bool)
    ensures
        r == href_safe(b),
{
    b == 33 || (35 <= b && b <= 37) || (40 <= b && b <= 59) || b == 61 || (63 <= b && b <= 90)
        || b == 95 || (97 <= b && b <= 122)
}

fn push_hex_digit(ob: &mut Vec<u8>, n: u8)
    requires
        n < 16,
    ensures
        final(ob)@ == old(ob)@ + seq![hex_digit(n)],
{
    if n < 10 {
        ob.push(48 + n);
    } else {
        ob.push(55 + n);
    }
}

/// Append the URL/attribute escape of `s` to the output buffer: every byte
/// outside the safe set is percent-encoded in uppercase hexadecimal, except
/// `&` and `'`, which become `&amp;` and `&#x27;`, so the result is at once a
/// valid URL and a safe double-quoted HTML attribute value.
pub fn escape_href(ob: &mut Vec<u8>, s: &Vec<u8>)
    ensures
        final(ob)@ == old(ob)@ + href_escaped(s@),
{
    let mut i: usize = 0;
    while i < s.len()
        invariant
            i <= s@.len(),
            ob@ == old(ob)@ + href_escaped(s@.take(i as int)),
        decreases s@.len() - i,
    {
        let b = s[i];
        if is_href_safe(b) {
            ob.push(b);
        } else if b == 38 {
            push_lit(ob, "&amp;");
        } else if b == 39 {
            push_lit(ob, "&#x27;");
        } else {
            ob.push(37);
            push_hex_digit(ob, b / 16);
            push_hex_digit(ob, b % 16);
        }
        proof {
            assert(s@.take(i + 1).drop_last() =~= s@.take(i as int));
            assert(s@.take(i + 1).last() == s@[i as int]);
            assert(ob@ =~= old(ob)@ + href_escaped(s@.take(i + 1)));
        }
        i += 1;
    }
    proof {
        assert(s@.take(s@.len() as int) =~= s@);
    }
}

/// The decimal digits of a number, most significant first.
pub open spec fn dec_seq(n: nat) -> Seq<u8>
    decreases n,
{
    if n < 10 {
        seq![(48 + n) as u8]
    } else {
        dec_seq(n / 10) + seq![(48 + n % 10) as u8]
    }
}

/// Append the decimal digits of `n` to the output buffer.
pub fn push_dec(buf: &mut Vec<u8>, n: u64)
    ensures
        final(buf)@ == old(buf)@ + dec_seq(n as nat),
    decreases n,
{
    if n < 10 {
        buf.push(48 + (n as u8));
    } else {
        push_dec(buf, n / 10);
        buf.push(48 + ((n % 10) as u8));
        proof {
            assert(buf@ =~= old(buf)@ + dec_seq(n as nat));
        }
    }
}

/// A byte string free of the bytes `"` `<` `>`: safe both as body text and
/// inside a double-quoted attribute value.
pub open spec fn body_safe(s: Seq<u8>) -> bool {
    forall|i: int| 0 <= i < s.len() ==> ((#[trigger] s[i]) != 34 && s[i] != 60 && s[i] != 62)
}

/// No unescaped `"` `<` `>` survives the HTML-body escape: for every input,
/// its output is free of those bytes.
pub proof fn lemma_html_escaped_safe(s: Seq<u8>, secure: bool)
    ensures
        body_safe(html_escaped(s, secure)),
    decreases s.len(),
{
    reveal_strlit("&quot;");
    reveal_strlit("&amp;");
    reveal_strlit("&#47;");
    reveal_strlit("&lt;");
    reveal_strlit("&gt;");
    if s.len() > 0 {
        lemma_html_escaped_safe(s.drop_last(), secure);
        assert(body_safe(esc_html_byte(s.last(), secure)));
    }
}

/// No unescaped `"` `<` `>` `'` and no space survives the URL/attribute
/// escape: for every input, its output is free of those bytes, so it can
/// stand inside a quoted `href` or `src` attribute.
pub proof fn lemma_href_escaped_safe(s: Seq<u8>)
    ensures
        body_safe(href_escaped(s)),
        forall|i: int| 0 <= i < href_escaped(s).len() ==> ((#[trigger] href_escaped(s)[i]) != 39
            && href_escaped(s)[i] != 32),
    decreases s.len(),
{
    reveal_strlit("&amp;");
    reveal_strlit("&#x27;");
    if s.len() > 0 {
        lemma_href_escaped_safe(s.drop_last());
        let e = esc_href_byte(s.last());
        assert(forall|i: int| 0 <= i < e.len() ==> ((#[trigger] e[i]) != 34 && e[i] != 60 && e[i]
            != 62 && e[i] != 39 && e[i] != 32));
    }
}

/// The HTML-body escape only ever lengthens a string: every byte becomes one
/// byte or one entity of several.
pub proof fn lemma_html_escaped_lengthens(s: Seq<u8>, secure: bool)
    ensures
        html_escaped(s, secure).len() >= s.len(),
    decreases s.len(),
{
    reveal_strlit("&quot;");
    reveal_strlit("&amp;");
    reveal_strlit("&#47;");
    reveal_strlit("&lt;");
    reveal_strlit("&gt;");
    if s.len() > 0 {
        lemma_html_escaped_lengthens(s.drop_last(), secure);
        assert(esc_html_byte(s.last(), secure).len() >= 1);
    }
}

/// Decimal renderings hold digit bytes alone.
pub proof fn lemma_dec_seq_digits(n: nat)
    ensures
        forall|i: int| 0 <= i < dec_seq(n).len() ==> (48 <= (#[trigger] dec_seq(n)[i]) <= 57),
    decreases n,
{
    if n >= 10 {
        lemma_dec_seq_digits(n / 10);
        let a = dec_seq(n / 10);
        let b = seq![(48 + n % 10) as u8];
        assert forall|i: int| 0 <= i < dec_seq(n).len() implies (48 <= (#[trigger] dec_seq(n)[i])
            <= 57) by {
            if i < a.len() {
                assert(dec_seq(n)[i] == a[i]);
            } else {
                assert(dec_seq(n)[i] == b[i - a.len()]);
            }
        }
    }
}

/// The first space-delimited token of a code block's info string: its prefix
/// up to (not including) the first space byte.
pub open spec fn first_token(s: Seq<u8>) -> Seq<u8>
    decreases s.len(),
{
    if s.len() == 0 || s[0] == 32 {
        Seq::empty()
    } else {
        seq![s[0]] + first_token(s.drop_first())
    }
}

/// The first space-delimited token of `s` as an owned vector.
pub fn take_first_token(s: &Vec<u8>) -> (t: Vec<u8>)
    ensures
        t@ == first_token(s@),
{
    let mut t: Vec<u8> = Vec::new();
    let mut i: usize = 0;
    proof {
        assert(s@.skip(0) =~= s@);
        assert(s@.take(0) =~= Seq::<u8>::empty());
    }
    while i < s.len() && s[i] != 32
        invariant
            i <= s@.len(),
            t@ == s@.take(i as int),
            forall|k: int| 0 <= k < i ==> s@[k] != 32,
            first_token(s@) == t@ + first_token(s@.skip(i as int)),
        decreases s@.len() - i,
    {
        t.push(s[i]);
        proof {
            assert(s@.skip(i as int)[0] == s@[i as int]);
            assert(s@.skip(i as int).drop_first() =~= s@.skip(i + 1));
            assert(s@.take(i + 1) =~= s@.take(i as int).push(s@[i as int]));
            assert(first_token(s@) =~= s@.take(i + 1) + first_token(s@.skip(i + 1)));
        }
        i += 1;
    }
    proof {
        if i < s@.len() {
            assert(s@.skip(i as int)[0] == s@[i as int]);
        }
        assert(first_token(s@.skip(i as int)) =~= Seq::<u8>::empty());
        assert(first_token(s@) =~= t@);
    }
    t
}

} // verus!
