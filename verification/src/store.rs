use vstd::prelude::*;
use vstd::string::StringExecFns;
use crate::chars::{chars_of, string_of};

verus! {

/// Derives the path of the persisted snapshot for one feed identifier.
pub fn cache_path(feed_id: &str) -> (p: String)
    ensures
        p@ == "./"@ + feed_id@ + ".cache"@,
{
    let mut p = String::from_str("./");
    p.append(feed_id);
    p.append(".cache");
    p
}

/// Error returned when a persisted snapshot exists but cannot be decoded.
/// A corrupt snapshot is fatal for the run: treating it as empty would
/// re-notify every historical entry.
#[derive(Clone, Copy, Debug, PartialEq, Eq, Structural)]
pub struct DecodeError;

/// Whether a character is a decimal digit.
pub open spec fn is_digit(c: char) -> bool {
    c == '0' || c == '1' || c == '2' || c == '3' || c == '4' || c == '5' || c == '6' || c == '7'
        || c == '8' || c == '9'
}

/// The character that writes one decimal digit.
pub open spec fn digit_char(d: nat) -> char {
    if d == 0 {
        '0'
    } else if d == 1 {
        '1'
    } else if d == 2 {
        '2'
    } else if d == 3 {
        '3'
    } else if d == 4 {
        '4'
    } else if d == 5 {
        '5'
    } else if d == 6 {
        '6'
    } else if d == 7 {
        '7'
    } else if d == 8 {
        '8'
    } else {
        '9'
    }
}

/// The value of one decimal digit character; non-digits count as zero.
pub open spec fn digit_val(c: char) -> nat {
    if c == '0' {
        0
    } else if c == '1' {
        1
    } else if c == '2' {
        2
    } else if c == '3' {
        3
    } else if c == '4' {
        4
    } else if c == '5' {
        5
    } else if c == '6' {
        6
    } else if c == '7' {
        7
    } else if c == '8' {
        8
    } else if c == '9' {
        9
    } else {
        0
    }
}

/// The decimal digits of a number, most significant first, no leading
/// zeros except for zero itself.
pub open spec fn dec_digits(n: nat) -> Seq<char>
    decreases n,
{
    if n < 10 {
        seq![digit_char(n)]
    } else {
        dec_digits(n / 10).push(digit_char(n % 10))
    }
}

/// The number a digit string denotes, read most significant first.
pub open spec fn dec_val(s: Seq<char>) -> nat
    decreases s.len(),
{
    if s.len() == 0 {
        0
    } else {
        dec_val(s.drop_last()) * 10 + digit_val(s.last())
    }
}

/// A well-formed snapshot token: a nonempty digit string with no leading
/// zero whose value fits in 64 bits.
pub open spec fn token_ok(t: Seq<char>) -> bool {
    &&& t.len() >= 1
    &&& forall|k: int| 0 <= k < t.len() ==> is_digit(#[trigger] t[k])
    &&& t.len() > 1 ==> t[0] != '0'
    &&& dec_val(t) <= u64::MAX
}

/// Splits a character sequence at every space. The empty sequence holds
/// one empty token; a trailing space opens a fresh empty token.
pub open spec fn tokenize(s: Seq<char>) -> Seq<Seq<char>>
    decreases s.len(),
{
    if s.len() == 0 {
        seq![Seq::<char>::empty()]
    } else if s.last() == ' ' {
        tokenize(s.drop_last()).push(Seq::<char>::empty())
    } else {
        let t = tokenize(s.drop_last());
        t.update(t.len() - 1, t.last().push(s.last()))
    }
}

/// The serialized form of a snapshot: the fingerprints in decimal, joined
/// by single spaces, the empty sequence for the empty snapshot.
pub open spec fn encode_model(w: Seq<u64>) -> Seq<char>
    decreases w.len(),
{
    if w.len() == 0 {
        Seq::<char>::empty()
    } else if w.len() == 1 {
        dec_digits(w[0] as nat)
    } else {
        encode_model(w.drop_last()) + seq![' '] + dec_digits(w.last() as nat)
    }
}

/// The snapshot a serialized form denotes: the empty sequence denotes the
/// empty snapshot, any other text must split into well-formed tokens.
pub open spec fn decode_model(s: Seq<char>) -> Option<Seq<u64>> {
    if s.len() == 0 {
        Option::Some(Seq::<u64>::empty())
    } else if forall|i: int| 0 <= i < tokenize(s).len() ==> token_ok(#[trigger] tokenize(s)[i]) {
        Option::Some(tokenize(s).map_values(|t: Seq<char>| dec_val(t) as u64))
    } else {
        Option::None
    }
}

proof fn lemma_dec_digits_basic(n: nat)
    ensures
        dec_digits(n).len() >= 1,
        forall|k: int| 0 <= k < dec_digits(n).len() ==> is_digit(#[trigger] dec_digits(n)[k]),
        n >= 1 ==> dec_digits(n)[0] != '0',
        dec_digits(n).len() > 1 ==> dec_digits(n)[0] != '0',
        dec_val(dec_digits(n)) == n,
    decreases n,
{
    if n < 10 {
        assert(dec_val(Seq::<char>::empty()) == 0);
        assert(seq![digit_char(n)].drop_last() =~= Seq::<char>::empty());
        assert(seq![digit_char(n)].last() == digit_char(n));
        assert(digit_val(digit_char(n)) == n);
        assert(dec_digits(n) == seq![digit_char(n)]);
        assert(dec_val(dec_digits(n)) == digit_val(digit_char(n)));
    } else {
        lemma_dec_digits_basic(n / 10);
        assert(dec_digits(n).drop_last() =~= dec_digits(n / 10));
        assert(dec_digits(n).last() == digit_char(n % 10));
        assert(dec_digits(n)[0] == dec_digits(n / 10)[0]);
        assert(digit_val(digit_char(n % 10)) == n % 10);
        assert(dec_val(dec_digits(n)) == dec_val(dec_digits(n / 10)) * 10 + digit_val(
            dec_digits(n).last(),
        ));
        assert(dec_val(dec_digits(n)) == (n / 10) * 10 + (n % 10));
        assert((n / 10) * 10 + (n % 10) == n) by {
            vstd::arithmetic::div_mod::lemma_fundamental_div_mod(n as int, 10);
        };
    }
}

proof fn lemma_tokenize_len(s: Seq<char>)
    ensures
        tokenize(s).len() >= 1,
    decreases s.len(),
{
    if s.len() > 0 {
        lemma_tokenize_len(s.drop_last());
    }
}

/// Appending space-free text to a sequence extends its last token.
proof fn lemma_tokenize_append(s: Seq<char>, t: Seq<char>)
    requires
        forall|k: int| 0 <= k < t.len() ==> t[k] != ' ',
    ensures
        tokenize(s + t) =~= tokenize(s).update(
            tokenize(s).len() - 1,
            tokenize(s).last() + t,
        ),
    decreases t.len(),
{
    lemma_tokenize_len(s);
    if t.len() == 0 {
        assert(s + t =~= s);
        assert(tokenize(s).last() + t =~= tokenize(s).last());
        assert(tokenize(s).update(tokenize(s).len() - 1, tokenize(s).last()) =~= tokenize(s));
    } else {
        let t0 = t.drop_last();
        let c = t.last();
        lemma_tokenize_append(s, t0);
        assert((s + t).drop_last() =~= s + t0);
        assert((s + t).last() == c);
        let u = tokenize(s + t0);
        assert(tokenize(s + t) == u.update(u.len() - 1, u.last().push(c)));
        assert(u.last() == tokenize(s).last() + t0);
        assert((tokenize(s).last() + t0).push(c) =~= tokenize(s).last() + t);
        assert(u.update(u.len() - 1, tokenize(s).last() + t) =~= tokenize(s).update(
            tokenize(s).len() - 1,
            tokenize(s).last() + t,
        ));
    }
}

/// The serialized snapshot splits back into one decimal token per
/// fingerprint.
proof fn lemma_tokenize_encode(w: Seq<u64>)
    requires
        w.len() >= 1,
    ensures
        encode_model(w).len() >= 1,
        tokenize(encode_model(w)) =~= w.map_values(|x: u64| dec_digits(x as nat)),
    decreases w.len(),
{
    let dd = w.map_values(|x: u64| dec_digits(x as nat));
    lemma_dec_digits_basic(w.last() as nat);
    if w.len() == 1 {
        let t = dec_digits(w[0] as nat);
        assert(Seq::<char>::empty() + t =~= t);
        lemma_tokenize_append(Seq::<char>::empty(), t);
        assert(tokenize(Seq::<char>::empty()) == seq![Seq::<char>::empty()]);
        assert(Seq::<char>::empty() + t =~= t);
        assert(tokenize(t) =~= seq![t]);
        assert(dd =~= seq![t]);
    } else {
        lemma_tokenize_encode(w.drop_last());
        let prev = encode_model(w.drop_last());
        let t = dec_digits(w.last() as nat);
        assert(encode_model(w) == prev + seq![' '] + t);
        let withsep = prev + seq![' '];
        assert(withsep.drop_last() =~= prev);
        assert(withsep.last() == ' ');
        assert(withsep.len() >= 1);
        assert(tokenize(withsep) == tokenize(prev).push(Seq::<char>::empty()));
        lemma_tokenize_append(withsep, t);
        assert(withsep + t =~= encode_model(w));
        let u = tokenize(withsep);
        assert(u.last() == Seq::<char>::empty());
        assert(Seq::<char>::empty() + t =~= t);
        let prevdd = w.drop_last().map_values(|x: u64| dec_digits(x as nat));
        assert(tokenize(encode_model(w)) =~= u.update(u.len() - 1, t));
        assert(u.update(u.len() - 1, t) =~= prevdd.push(t));
        assert(prevdd.push(t) =~= dd);
    }
}

/// Decoding a serialized snapshot yields it back exactly: the codec round
/// trips on every snapshot.
pub proof fn lemma_round_trip(w: Seq<u64>)
    ensures
        decode_model(encode_model(w)) == Option::Some(w),
{
    if w.len() == 0 {
        assert(w =~= Seq::<u64>::empty());
    } else {
        lemma_tokenize_encode(w);
        let toks = tokenize(encode_model(w));
        assert forall|i: int| 0 <= i < toks.len() implies token_ok(#[trigger] toks[i]) by {
            lemma_dec_digits_basic(w[i] as nat);
        };
        let vals = toks.map_values(|t: Seq<char>| dec_val(t) as u64);
        assert forall|i: int| 0 <= i < toks.len() implies #[trigger] vals[i] == w[i] by {
            lemma_dec_digits_basic(w[i] as nat);
        };
        assert(vals =~= w);
    }
}

fn digit_to_char(d: u8) -> (c: char)
    requires
        d < 10,
    ensures
        c == digit_char(d as nat),
{
    if d == 0 {
        '0'
    } else if d == 1 {
        '1'
    } else if d == 2 {
        '2'
    } else if d == 3 {
        '3'
    } else if d == 4 {
        '4'
    } else if d == 5 {
        '5'
    } else if d == 6 {
        '6'
    } else if d == 7 {
        '7'
    } else if d == 8 {
        '8'
    } else {
        '9'
    }
}

fn char_to_digit(c: char) -> (r: Option<u8>)
    ensures
        match r {
            Option::Some(d) => is_digit(c) && d < 10 && d as nat == digit_val(c),
            Option::None => !is_digit(c),
        },
{
    if c == '0' {
        Option::Some(0)
    } else if c == '1' {
        Option::Some(1)
    } else if c == '2' {
        Option::Some(2)
    } else if c == '3' {
        Option::Some(3)
    } else if c == '4' {
        Option::Some(4)
    } else if c == '5' {
        Option::Some(5)
    } else if c == '6' {
        Option::Some(6)
    } else if c == '7' {
        Option::Some(7)
    } else if c == '8' {
        Option::Some(8)
    } else if c == '9' {
        Option::Some(9)
    } else {
        Option::None
    }
}

fn push_decimal(n: u64, out: &mut Vec<char>)
    ensures
        final(out)@ == old(out)@ + dec_digits(n as nat),
    decreases n,
{
    let ghost out0 = out@;
    if n >= 10 {
        push_decimal(n / 10, out);
        out.push(digit_to_char((n % 10) as u8));
        proof {
            assert((out0 + dec_digits((n / 10) as nat)).push(digit_char((n % 10) as nat)) =~= out0
                + dec_digits(n as nat));
        }
    } else {
        out.push(digit_to_char(n as u8));
        proof {
            assert(out0.push(digit_char(n as nat)) =~= out0 + dec_digits(n as nat));
        }
    }
}

/// Serializes a snapshot: the fingerprints in decimal, joined by single
/// spaces; the empty snapshot serializes to the empty string.
pub fn encode(fps: &Vec<u64>) -> (s: String)
    ensures
        s@ == encode_model(fps@),
{
    let mut out: Vec<char> = Vec::new();
    let mut i: usize = 0;
    proof {
        assert(fps@.take(0) =~= Seq::<u64>::empty());
    }
    while i < fps.len()
        invariant
            i <= fps@.len(),
            out@ == encode_model(fps@.take(i as int)),
        decreases fps@.len() - i,
    {
        let ghost out0 = out@;
        let ghost pre = fps@.take(i as int);
        let ghost cur = fps@.take(i as int + 1);
        proof {
            assert(cur.drop_last() =~= pre);
            assert(cur.last() == fps@[i as int]);
        }
        if i > 0 {
            out.push(' ');
            push_decimal(fps[i], &mut out);
            proof {
                assert(cur.len() >= 2);
                assert(out@ =~= (encode_model(pre) + seq![' ']) + dec_digits(
                    fps@[i as int] as nat,
                ));
                assert(out@ =~= encode_model(cur));
            }
        } else {
            push_decimal(fps[i], &mut out);
            proof {
                assert(cur =~= seq![fps@[0]]);
                assert(out@ =~= Seq::<char>::empty() + dec_digits(fps@[0] as nat));
                assert(out@ =~= encode_model(cur));
            }
        }
        i = i + 1;
    }
    proof {
        assert(fps@.take(fps@.len() as int) =~= fps@);
    }
    string_of(&out)
}

proof fn lemma_dec_val_prefix(s: Seq<char>, k: int)
    requires
        0 <= k <= s.len(),
    ensures
        dec_val(s.take(k)) <= dec_val(s),
    decreases s.len() - k,
{
    if k < s.len() {
        lemma_dec_val_prefix(s, k + 1);
        assert(s.take(k + 1).drop_last() =~= s.take(k));
        assert(s.take(k + 1).last() == s[k]);
        assert(dec_val(s.take(k + 1)) == dec_val(s.take(k)) * 10 + digit_val(s[k]));
    } else {
        assert(s.take(k) =~= s);
    }
}

fn parse_token(t: &Vec<char>) -> (r: Option<u64>)
    ensures
        match r {
            Option::Some(v) => token_ok(t@) && v as nat == dec_val(t@),
            Option::None => !token_ok(t@),
        },
{
    if t.len() == 0 {
        return Option::None;
    }
    if t.len() > 1 && t[0] == '0' {
        return Option::None;
    }
    let mut val: u64 = 0;
    let mut i: usize = 0;
    proof {
        assert(t@.take(0) =~= Seq::<char>::empty());
    }
    while i < t.len()
        invariant
            i <= t@.len(),
            val as nat == dec_val(t@.take(i as int)),
            forall|k: int| 0 <= k < i ==> is_digit(#[trigger] t@[k]),
        decreases t@.len() - i,
    {
        proof {
            assert(t@.take(i as int + 1).drop_last() =~= t@.take(i as int));
            assert(t@.take(i as int + 1).last() == t@[i as int]);
        }
        match char_to_digit(t[i]) {
            Option::Some(d) => {
                let wide: u128 = (val as u128) * 10 + (d as u128);
                if wide > u64::MAX as u128 {
                    proof {
                        lemma_dec_val_prefix(t@, i as int + 1);
                    }
                    return Option::None;
                }
                val = wide as u64;
            },
            Option::None => {
                return Option::None;
            },
        }
        i = i + 1;
    }
    proof {
        assert(t@.take(t@.len() as int) =~= t@);
    }
    Option::Some(val)
}

fn split_spaces(cs: &Vec<char>) -> (toks: Vec<Vec<char>>)
    ensures
        toks@.map_values(|t: Vec<char>| t@) == tokenize(cs@),
{
    let mut toks: Vec<Vec<char>> = Vec::new();
    let mut cur: Vec<char> = Vec::new();
    let mut i: usize = 0;
    proof {
        assert(cs@.take(0) =~= Seq::<char>::empty());
        assert(toks@.map_values(|t: Vec<char>| t@) + seq![cur@] =~= tokenize(cs@.take(0)));
    }
    while i < cs.len()
        invariant
            i <= cs@.len(),
            tokenize(cs@.take(i as int)) == toks@.map_values(|t: Vec<char>| t@) + seq![cur@],
        decreases cs@.len() - i,
    {
        let ghost toks0 = toks@;
        let ghost cur0 = cur@;
        let ghost pre = cs@.take(i as int);
        let ghost now = cs@.take(i as int + 1);
        proof {
            assert(now.drop_last() =~= pre);
            assert(now.last() == cs@[i as int]);
        }
        let c = cs[i];
        if c == ' ' {
            toks.push(cur);
            cur = Vec::new();
            proof {
                assert(tokenize(now) == tokenize(pre).push(Seq::<char>::empty()));
                assert((toks0.map_values(|t: Vec<char>| t@) + seq![cur0]).push(
                    Seq::<char>::empty(),
                ) =~= toks@.map_values(|t: Vec<char>| t@) + seq![cur@]);
            }
        } else {
            cur.push(c);
            proof {
                let u = tokenize(pre);
                assert(tokenize(now) == u.update(u.len() - 1, u.last().push(cs@[i as int])));
                assert(u.len() == toks0.map_values(|t: Vec<char>| t@).len() + 1);
                assert(u.last() == cur0);
                assert(u.update(u.len() - 1, cur0.push(cs@[i as int])) =~= toks@.map_values(
                    |t: Vec<char>| t@,
                ) + seq![cur@]);
            }
        }
        i = i + 1;
    }
    proof {
        assert(cs@.take(cs@.len() as int) =~= cs@);
    }
    toks.push(cur);
    proof {
        assert(toks@.map_values(|t: Vec<char>| t@) =~= tokenize(cs@));
    }
    toks
}

/// Deserializes a snapshot. The empty string decodes to the empty
/// snapshot; any other text must split on single spaces into decimal
/// numbers that fit in 64 bits, with no leading zeros, else the snapshot
/// counts as corrupt and the run must fail.
pub fn decode(s: &str) -> (r: Result<Vec<u64>, DecodeError>)
    ensures
        match r {
            Result::Ok(w) => decode_model(s@) == Option::Some(w@),
            Result::Err(_) => decode_model(s@) == Option::<Seq<u64>>::None,
        },
{
    let cs = chars_of(s);
    if cs.len() == 0 {
        let w: Vec<u64> = Vec::new();
        proof {
            assert(w@ =~= Seq::<u64>::empty());
        }
        return Result::Ok(w);
    }
    let toks = split_spaces(&cs);
    let ghost tv = tokenize(s@);
    let mut out: Vec<u64> = Vec::new();
    let mut i: usize = 0;
    while i < toks.len()
        invariant
            cs@ == s@,
            s@.len() > 0,
            tv == tokenize(s@),
            toks@.map_values(|t: Vec<char>| t@) == tv,
            i <= toks@.len(),
            out@.len() == i,
            forall|k: int| 0 <= k < i ==> token_ok(#[trigger] tv[k]),
            forall|k: int| 0 <= k < i ==> out@[k] as nat == dec_val(tv[k]),
        decreases toks@.len() - i,
    {
        proof {
            assert(tv[i as int] == toks@[i as int]@);
        }
        match parse_token(&toks[i]) {
            Option::Some(v) => {
                out.push(v);
            },
            Option::None => {
                proof {
                    assert(cs@.len() > 0);
                    assert(tv.len() == toks@.len());
                    assert((i as int) < tokenize(s@).len());
                    assert(!token_ok(tokenize(s@)[i as int]));
                    assert(decode_model(s@) is None);
                }
                return Result::Err(DecodeError);
            },
        }
        i = i + 1;
    }
    proof {
        assert(s@.len() > 0);
        assert(out@ =~= tv.map_values(|t: Seq<char>| dec_val(t) as u64));
    }
    Result::Ok(out)
}

} // verus!
