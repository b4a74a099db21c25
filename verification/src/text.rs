//! Text primitives the ledger rules are stated over: lexicographic ordering
//! of strings (dates are fixed-width ISO-8601, so lexicographic order is
//! chronological order), blankness of a string, and decimal rendering of
//! integers.
use vstd::prelude::*;

verus! {

/// Lexicographic order on character sequences, by code point; a prefix
/// precedes every extension of it.
pub open spec fn lex_le(a: Seq<char>, b: Seq<char>) -> bool
    decreases a.len(),
{
    if a.len() == 0 {
        true
    } else if b.len() == 0 {
        false
    } else if a[0] as u32 == b[0] as u32 {
        lex_le(a.subrange(1, a.len() as int), b.subrange(1, b.len() as int))
    } else {
        (a[0] as u32) < (b[0] as u32)
    }
}

/// Lexicographic order is total.
pub proof fn lemma_lex_le_total(a: Seq<char>, b: Seq<char>)
    ensures
        lex_le(a, b) || lex_le(b, a),
    decreases a.len(),
{
    if a.len() == 0 {
    } else if b.len() == 0 {
    } else if a[0] as u32 == b[0] as u32 {
        lemma_lex_le_total(a.subrange(1, a.len() as int), b.subrange(1, b.len() as int));
    }
}

/// Lexicographic order is transitive.
pub proof fn lemma_lex_le_trans(a: Seq<char>, b: Seq<char>, c: Seq<char>)
    requires
        lex_le(a, b),
        lex_le(b, c),
    ensures
        lex_le(a, c),
    decreases a.len(),
{
    if a.len() == 0 {
    } else if b.len() == 0 {
    } else if c.len() == 0 {
    } else {
        if a[0] as u32 == b[0] as u32 && b[0] as u32 == c[0] as u32 {
            lemma_lex_le_trans(
                a.subrange(1, a.len() as int),
                b.subrange(1, b.len() as int),
                c.subrange(1, c.len() as int),
            );
        }
    }
}

/// Decides `lex_le(a@, b@)` executably.
pub fn str_lex_le(a: &str, b: &str) -> (r: bool)
    ensures
        r == lex_le(a@, b@),
{
    let alen = a.unicode_len();
    let blen = b.unicode_len();
    let min: usize = if alen <= blen {
        alen
    } else {
        blen
    };
    let mut i: usize = 0;
    proof {
        assert(a@.subrange(0, alen as int) =~= a@);
        assert(b@.subrange(0, blen as int) =~= b@);
    }
    while i < min
        invariant
            i <= min,
            min <= alen == a@.len(),
            min <= blen == b@.len(),
            lex_le(a@, b@) == lex_le(
                a@.subrange(i as int, alen as int),
                b@.subrange(i as int, blen as int),
            ),
        decreases min - i,
    {
        let ca = a.get_char(i);
        let cb = b.get_char(i);
        if ca as u32 != cb as u32 {
            return (ca as u32) < (cb as u32);
        }
        proof {
            let sa = a@.subrange(i as int, alen as int);
            let sb = b@.subrange(i as int, blen as int);
            assert(sa.subrange(1, sa.len() as int) =~= a@.subrange(i + 1, alen as int));
            assert(sb.subrange(1, sb.len() as int) =~= b@.subrange(i + 1, blen as int));
        }
        i = i + 1;
    }
    proof {
        assert(a@.subrange(min as int, alen as int).len() == alen - min);
        assert(b@.subrange(min as int, blen as int).len() == blen - min);
    }
    alen <= blen
}

/// A character with the Unicode White_Space property — what trimming a
/// string removes: the ASCII whitespace controls and space, next line,
/// no-break space, ogham space mark, the en/em family of spaces, the line
/// and paragraph separators, narrow no-break space, medium mathematical
/// space, and ideographic space.
pub open spec fn is_space_char(c: char) -> bool {
    ||| 0x9 <= c as u32 <= 0xd
    ||| c as u32 == 0x20
    ||| c as u32 == 0x85
    ||| c as u32 == 0xa0
    ||| c as u32 == 0x1680
    ||| 0x2000 <= c as u32 <= 0x200a
    ||| c as u32 == 0x2028
    ||| c as u32 == 0x2029
    ||| c as u32 == 0x202f
    ||| c as u32 == 0x205f
    ||| c as u32 == 0x3000
}

/// A string is blank when every character is whitespace — exactly the
/// strings that trim to empty; attachments with a blank reference value are
/// dropped at voucher creation.
pub open spec fn is_blank(s: Seq<char>) -> bool {
    forall|i: int| 0 <= i < s.len() ==> is_space_char(#[trigger] s[i])
}

/// Decides `is_blank(s@)` executably.
pub fn str_is_blank(s: &str) -> (r: bool)
    ensures
        r == is_blank(s@),
{
    let len = s.unicode_len();
    let mut i: usize = 0;
    while i < len
        invariant
            i <= len == s@.len(),
            forall|j: int| 0 <= j < i ==> is_space_char(#[trigger] s@[j]),
        decreases len - i,
    {
        let c = s.get_char(i) as u32;
        let space = (0x9 <= c && c <= 0xd) || c == 0x20 || c == 0x85 || c == 0xa0 || c == 0x1680
            || (0x2000 <= c && c <= 0x200a) || c == 0x2028 || c == 0x2029 || c == 0x202f || c
            == 0x205f || c == 0x3000;
        if !space {
            return false;
        }
        i = i + 1;
    }
    true
}

/// The character for one decimal digit.
pub open spec fn dec_digit(d: int) -> char {
    ((48 + d) as u8) as char
}

/// Decimal representation of a non-negative integer, most significant digit
/// first, with no leading zeros (a single `'0'` for zero).
pub open spec fn dec_rep(n: nat) -> Seq<char>
    decreases n,
{
    if n < 10 {
        seq![dec_digit(n as int)]
    } else {
        dec_rep(n / 10) + seq![dec_digit((n % 10) as int)]
    }
}

/// Decimal representation of a signed integer: a leading `'-'` for a
/// negative value, otherwise `dec_rep` of the value itself.
pub open spec fn dec_int(n: int) -> Seq<char> {
    if n < 0 {
        seq!['-'] + dec_rep((-n) as nat)
    } else {
        dec_rep(n as nat)
    }
}

/// Relies on String::push: appends exactly the given character at the end.
#[verifier::external_body]
pub fn push_char(s: &mut String, c: char)
    ensures
        final(s)@ == old(s)@.push(c),
{
    s.push(c);
}

pub fn append_dec_u64(s: &mut String, n: u64)
    ensures
        final(s)@ == old(s)@ + dec_rep(n as nat),
    decreases n,
{
    if n < 10 {
        push_char(s, (48 + n as u8) as char);
    } else {
        append_dec_u64(s, n / 10);
        push_char(s, (48 + (n % 10) as u8) as char);
    }
}

/// Appends a signed integer in decimal.
pub fn append_dec_i64(s: &mut String, n: i64)
    ensures
        final(s)@ == old(s)@ + dec_int(n as int),
{
    if n < 0 {
        push_char(s, '-');
        let m: u64 = if n == i64::MIN {
            9223372036854775808u64
        } else {
            (-n) as u64
        };
        append_dec_u64(s, m);
    } else {
        append_dec_u64(s, n as u64);
    }
}

/// A text with every comma replaced by a space: the lossy but deterministic
/// sanitizing the CSV export applies to free-text fields.
pub open spec fn sanitized(s: Seq<char>) -> Seq<char> {
    s.map_values(|c: char| if c == ',' { ' ' } else { c })
}

/// Appends the text with commas replaced by spaces.
pub fn append_sanitized(s: &mut String, x: &str)
    ensures
        final(s)@ == old(s)@ + sanitized(x@),
{
    let n = x.unicode_len();
    let mut i: usize = 0;
    proof {
        assert(old(s)@ + sanitized(x@.take(0)) =~= old(s)@);
    }
    while i < n
        invariant
            i <= n == x@.len(),
            s@ == old(s)@ + sanitized(x@.take(i as int)),
        decreases n - i,
    {
        let c = x.get_char(i);
        if c == ',' {
            push_char(s, ' ');
        } else {
            push_char(s, c);
        }
        proof {
            assert(sanitized(x@.take(i as int + 1)) =~= sanitized(x@.take(i as int)).push(
                if x@[i as int] == ',' {
                    ' '
                } else {
                    x@[i as int]
                },
            ));
            assert(old(s)@ + sanitized(x@.take(i as int)).push(
                if x@[i as int] == ',' {
                    ' '
                } else {
                    x@[i as int]
                },
            ) =~= (old(s)@ + sanitized(x@.take(i as int))).push(
                if x@[i as int] == ',' {
                    ' '
                } else {
                    x@[i as int]
                },
            ));
        }
        i = i + 1;
    }
    proof {
        assert(x@.take(n as int) =~= x@);
    }
}

/// Renders a signed integer in decimal.
pub fn i64_to_string(n: i64) -> (r: String)
    ensures
        r@ == dec_int(n as int),
{
    let mut s = String::new();
    if n < 0 {
        push_char(&mut s, '-');
        let m: u64 = if n == i64::MIN {
            9223372036854775808u64
        } else {
            (-n) as u64
        };
        append_dec_u64(&mut s, m);
    } else {
        append_dec_u64(&mut s, n as u64);
    }
    s
}

} // verus!
