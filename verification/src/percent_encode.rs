//! The percent-encoding table and the two policies that read it.
//!
//! Every byte has exactly one textual form under each policy: the byte itself
//! when it is unreserved, a lone `/` for the solidus under the policy that
//! keeps path separators, and otherwise `%` followed by two upper-case
//! hexadecimal digits.
use vstd::prelude::*;
use vstd::string::*;

verus! {

/// The path separator, `/`.
pub const SOLIDUS_BYTE: u8 = '/' as u8;

/// The form of the path separator under the policy that keeps it.
pub const SOLIDUS_STR: &'static str = "/";

/// The unreserved characters, in the order of their codes.
pub const UNRESERVED: &'static str =
    "-.0123456789ABCDEFGHIJKLMNOPQRSTUVWXYZ_abcdefghijklmnopqrstuvwxyz~";

/// The table of escapes, packed: the escape of byte `b` is the three
/// characters from `3 * b` on.
pub const PERCENT_ENCODE: &'static str =
    "%00%01%02%03%04%05%06%07%08%09%0A%0B%0C%0D%0E%0F\
     %10%11%12%13%14%15%16%17%18%19%1A%1B%1C%1D%1E%1F\
     %20%21%22%23%24%25%26%27%28%29%2A%2B%2C%2D%2E%2F\
     %30%31%32%33%34%35%36%37%38%39%3A%3B%3C%3D%3E%3F\
     %40%41%42%43%44%45%46%47%48%49%4A%4B%4C%4D%4E%4F\
     %50%51%52%53%54%55%56%57%58%59%5A%5B%5C%5D%5E%5F\
     %60%61%62%63%64%65%66%67%68%69%6A%6B%6C%6D%6E%6F\
     %70%71%72%73%74%75%76%77%78%79%7A%7B%7C%7D%7E%7F\
     %80%81%82%83%84%85%86%87%88%89%8A%8B%8C%8D%8E%8F\
     %90%91%92%93%94%95%96%97%98%99%9A%9B%9C%9D%9E%9F\
     %A0%A1%A2%A3%A4%A5%A6%A7%A8%A9%AA%AB%AC%AD%AE%AF\
     %B0%B1%B2%B3%B4%B5%B6%B7%B8%B9%BA%BB%BC%BD%BE%BF\
     %C0%C1%C2%C3%C4%C5%C6%C7%C8%C9%CA%CB%CC%CD%CE%CF\
     %D0%D1%D2%D3%D4%D5%D6%D7%D8%D9%DA%DB%DC%DD%DE%DF\
     %E0%E1%E2%E3%E4%E5%E6%E7%E8%E9%EA%EB%EC%ED%EE%EF\
     %F0%F1%F2%F3%F4%F5%F6%F7%F8%F9%FA%FB%FC%FD%FE%FF";

/// The bytes that are never escaped: ASCII letters, digits, `-`, `.`, `_`, `~`.
pub open spec fn is_unreserved(b: u8) -> bool {
    ||| 'A' <= b <= 'Z'
    ||| 'a' <= b <= 'z'
    ||| '0' <= b <= '9'
    ||| b == '-'
    ||| b == '.'
    ||| b == '_'
    ||| b == '~'
}

/// The unreserved bytes, as characters.
pub open spec fn is_unreserved_char(c: char) -> bool {
    ||| 'A' <= c <= 'Z'
    ||| 'a' <= c <= 'z'
    ||| '0' <= c <= '9'
    ||| c == '-'
    ||| c == '.'
    ||| c == '_'
    ||| c == '~'
}

/// The characters that an encoded untrusted byte can consist of.
pub open spec fn is_escape_safe(c: char) -> bool {
    c == '%' || is_unreserved_char(c)
}

/// The upper-case hexadecimal digit for a value below sixteen.
pub open spec fn hex_digit(n: int) -> char
    recommends
        0 <= n < 16,
{
    if n < 10 {
        ('0' as int + n) as char
    } else {
        ('A' as int + (n - 10)) as char
    }
}

/// The escape of a byte: `%`, then its high and its low hexadecimal digit.
pub open spec fn escaped(b: u8) -> Seq<char> {
    seq!['%', hex_digit(b as int / 16), hex_digit(b as int % 16)]
}

/// What an untrusted byte becomes: itself if unreserved, else its escape.
pub open spec fn encoded_user_input(b: u8) -> Seq<char> {
    if is_unreserved(b) {
        seq![b as char]
    } else {
        escaped(b)
    }
}

/// What a byte of a trusted literal becomes: as for an untrusted byte, except
/// that the solidus stays a solidus.
pub open spec fn encoded_no_slash(b: u8) -> Seq<char> {
    if b == SOLIDUS_BYTE {
        seq!['/']
    } else {
        encoded_user_input(b)
    }
}

/// The packed table holds the escape of every byte at its place.
pub proof fn lemma_table_holds_escapes()
    ensures
        PERCENT_ENCODE@.len() == 768,
        is_ascii(PERCENT_ENCODE),
        forall|b: u8| #[trigger] PERCENT_ENCODE@.subrange(3 * b, 3 * b + 3) == escaped(b),
{
    reveal_strlit(
        "%00%01%02%03%04%05%06%07%08%09%0A%0B%0C%0D%0E%0F\
         %10%11%12%13%14%15%16%17%18%19%1A%1B%1C%1D%1E%1F\
         %20%21%22%23%24%25%26%27%28%29%2A%2B%2C%2D%2E%2F\
         %30%31%32%33%34%35%36%37%38%39%3A%3B%3C%3D%3E%3F\
         %40%41%42%43%44%45%46%47%48%49%4A%4B%4C%4D%4E%4F\
         %50%51%52%53%54%55%56%57%58%59%5A%5B%5C%5D%5E%5F\
         %60%61%62%63%64%65%66%67%68%69%6A%6B%6C%6D%6E%6F\
         %70%71%72%73%74%75%76%77%78%79%7A%7B%7C%7D%7E%7F\
         %80%81%82%83%84%85%86%87%88%89%8A%8B%8C%8D%8E%8F\
         %90%91%92%93%94%95%96%97%98%99%9A%9B%9C%9D%9E%9F\
         %A0%A1%A2%A3%A4%A5%A6%A7%A8%A9%AA%AB%AC%AD%AE%AF\
         %B0%B1%B2%B3%B4%B5%B6%B7%B8%B9%BA%BB%BC%BD%BE%BF\
         %C0%C1%C2%C3%C4%C5%C6%C7%C8%C9%CA%CB%CC%CD%CE%CF\
         %D0%D1%D2%D3%D4%D5%D6%D7%D8%D9%DA%DB%DC%DD%DE%DF\
         %E0%E1%E2%E3%E4%E5%E6%E7%E8%E9%EA%EB%EC%ED%EE%EF\
         %F0%F1%F2%F3%F4%F5%F6%F7%F8%F9%FA%FB%FC%FD%FE%FF",
    );
    assert forall|b: u8| #[trigger] PERCENT_ENCODE@.subrange(3 * b, 3 * b + 3) == escaped(b) by {
        assert(PERCENT_ENCODE@.subrange(3 * b, 3 * b + 3) =~= escaped(b));
    }
}

/// The list of unreserved characters holds them all, and nothing else.
pub proof fn lemma_unreserved_characters()
    ensures
        UNRESERVED@.len() == 66,
        is_ascii(UNRESERVED),
        forall|i: int| 0 <= i < 66 ==> is_unreserved_char(#[trigger] UNRESERVED@[i]),
        forall|c: char| is_unreserved_char(c) ==> UNRESERVED@.contains(c),
{
    reveal_strlit("-.0123456789ABCDEFGHIJKLMNOPQRSTUVWXYZ_abcdefghijklmnopqrstuvwxyz~");
    assert forall|c: char| is_unreserved_char(c) implies UNRESERVED@.contains(c) by {
        let at = if c == '-' {
            0
        } else if c == '.' {
            1
        } else if c <= '9' {
            2 + (c as int - '0' as int)
        } else if c <= 'Z' {
            12 + (c as int - 'A' as int)
        } else if c == '_' {
            38
        } else if c <= 'z' {
            39 + (c as int - 'a' as int)
        } else {
            65
        };
        assert(UNRESERVED@[at] == c);
    }
}

/// Where an unreserved byte stands among the unreserved characters; `None`
/// for every other byte.
pub fn unreserved_index(c: u8) -> (r: Option<usize>)
    ensures
        r is Some <==> is_unreserved(c),
        r is Some ==> r->0 < UNRESERVED@.len() && UNRESERVED@[r->0 as int] == c as char,
{
    proof {
        reveal_strlit("-.0123456789ABCDEFGHIJKLMNOPQRSTUVWXYZ_abcdefghijklmnopqrstuvwxyz~");
    }
    if c == '-' as u8 {
        Some(0)
    } else if c == '.' as u8 {
        Some(1)
    } else if c >= '0' as u8 && c <= '9' as u8 {
        Some(2 + (c - '0' as u8) as usize)
    } else if c >= 'A' as u8 && c <= 'Z' as u8 {
        Some(12 + (c - 'A' as u8) as usize)
    } else if c == '_' as u8 {
        Some(38)
    } else if c >= 'a' as u8 && c <= 'z' as u8 {
        Some(39 + (c - 'a' as u8) as usize)
    } else if c == '~' as u8 {
        Some(65)
    } else {
        None
    }
}

/// Encodes a byte of a trusted literal fragment, keeping the path separator.
pub fn percent_encode_no_slash(c: u8) -> (r: &'static str)
    ensures
        r@ == encoded_no_slash(c),
{
    if c == SOLIDUS_BYTE {
        proof {
            reveal_strlit("/");
        }
        assert(SOLIDUS_STR@ =~= seq!['/']);
        SOLIDUS_STR
    } else {
        percent_encode_user_input(c)
    }
}

/// Encodes a byte of an untrusted value: nothing but unreserved bytes passes
/// unescaped.
pub fn percent_encode_user_input(c: u8) -> (r: &'static str)
    ensures
        r@ == encoded_user_input(c),
{
    match unreserved_index(c) {
        Some(at) => {
            proof {
                lemma_unreserved_characters();
            }
            let r = UNRESERVED.substring_ascii(at, at + 1);
            assert(r@ =~= seq![c as char]);
            r
        },
        None => {
            proof {
                lemma_table_holds_escapes();
            }
            let at: usize = 3 * (c as usize);
            PERCENT_ENCODE.substring_ascii(at, at + 3)
        },
    }
}

/// An unreserved byte is its own encoding under both policies.
pub proof fn lemma_unreserved_unchanged(b: u8)
    requires
        is_unreserved(b),
    ensures
        encoded_user_input(b) == seq![b as char],
        encoded_no_slash(b) == seq![b as char],
{
}

/// An encoded byte is one character long when it passes unescaped and three
/// when it is escaped; no other length occurs.
pub proof fn lemma_encoded_length(b: u8)
    ensures
        encoded_user_input(b).len() == (if is_unreserved(b) {
            1nat
        } else {
            3nat
        }),
        encoded_no_slash(b).len() == (if is_unreserved(b) || b == SOLIDUS_BYTE {
            1nat
        } else {
            3nat
        }),
        encoded_user_input(b).len() == 1 || encoded_user_input(b).len() == 3,
        encoded_no_slash(b).len() == 1 || encoded_no_slash(b).len() == 3,
{
}

/// The two policies differ on the solidus and on nothing else.
pub proof fn lemma_policies_differ_on_solidus_only(b: u8)
    ensures
        b != SOLIDUS_BYTE ==> encoded_no_slash(b) == encoded_user_input(b),
        encoded_no_slash(SOLIDUS_BYTE) == seq!['/'],
        encoded_user_input(SOLIDUS_BYTE) == seq!['%', '2', 'F'],
{
    assert(encoded_user_input(SOLIDUS_BYTE) =~= seq!['%', '2', 'F']);
}

/// An encoded untrusted byte holds only `%` and unreserved characters: never
/// a solidus, whatever the byte.
pub proof fn lemma_user_input_is_escape_safe(b: u8)
    ensures
        forall|i: int|
            0 <= i < encoded_user_input(b).len() ==> is_escape_safe(
                #[trigger] encoded_user_input(b)[i],
            ),
        !encoded_user_input(b).contains('/'),
{
}

/// Distinct bytes have distinct encodings, under either policy.
pub proof fn lemma_encoding_is_injective(a: u8, b: u8)
    requires
        a != b,
    ensures
        encoded_user_input(a) != encoded_user_input(b),
        encoded_no_slash(a) != encoded_no_slash(b),
{
    let (ea, eb) = (encoded_user_input(a), encoded_user_input(b));
    let (na, nb) = (encoded_no_slash(a), encoded_no_slash(b));
    if ea.len() == eb.len() {
        if ea.len() == 1 {
            assert(ea[0] != eb[0]);
        } else {
            assert(a as int / 16 != b as int / 16 || a as int % 16 != b as int % 16);
            assert(ea[1] != eb[1] || ea[2] != eb[2]);
        }
    }
    if na.len() == nb.len() {
        if na.len() == 1 {
            assert(na[0] != nb[0]);
        } else {
            assert(na[1] != nb[1] || na[2] != nb[2]);
        }
    }
}

} // verus!
