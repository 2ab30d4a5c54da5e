use vstd::prelude::*;
use crate::chars::{chars_of, string_of};

verus! {

/// The scanner that a raw configuration string drives, one character at a
/// time. `escaped` records a pending backslash; `search` and `repl` are the
/// two accumulator buffers, with `repl` the one characters land in. A bare
/// colon closes the current rule, a bare slash swaps the buffer roles, and
/// the final in-progress pair is always emitted, even when empty.
pub open spec fn scan(
    cs: Seq<char>,
    escaped: bool,
    search: Seq<char>,
    repl: Seq<char>,
) -> Seq<(Seq<char>, Seq<char>)>
    decreases cs.len(),
{
    if cs.len() == 0 {
        seq![(search, repl)]
    } else {
        let c = cs[0];
        let rest = cs.drop_first();
        if escaped {
            scan(rest, false, search, repl.push(c))
        } else if c == '\\' {
            scan(rest, true, search, repl)
        } else if c == ':' {
            seq![(search, repl)] + scan(rest, false, Seq::empty(), Seq::empty())
        } else if c == '/' {
            scan(rest, false, repl, search)
        } else {
            scan(rest, false, search, repl.push(c))
        }
    }
}

/// The ordered rule list a raw configuration string denotes.
pub open spec fn rules_of(raw: Seq<char>) -> Seq<(Seq<char>, Seq<char>)> {
    scan(raw, false, Seq::empty(), Seq::empty())
}

/// The view of an executable rule list.
pub open spec fn rules_view(rs: Seq<(String, String)>) -> Seq<(Seq<char>, Seq<char>)> {
    rs.map_values(|p: (String, String)| (p.0@, p.1@))
}

/// Parses a raw configuration string into its ordered list of
/// (search, replacement) rules, honoring backslash escapes.
pub fn parse(raw: &str) -> (rules: Vec<(String, String)>)
    ensures
        rules_view(rules@) == rules_of(raw@),
{
    let cs = chars_of(raw);
    let mut escaped: bool = false;
    let mut search: Vec<char> = Vec::new();
    let mut repl: Vec<char> = Vec::new();
    let mut rules: Vec<(String, String)> = Vec::new();
    let mut i: usize = 0;
    proof {
        assert(cs@.skip(0) =~= cs@);
        assert(rules_view(rules@) + rules_of(raw@) =~= rules_of(raw@));
    }
    while i < cs.len()
        invariant
            cs@ == raw@,
            i <= cs@.len(),
            rules_of(raw@) == rules_view(rules@) + scan(
                cs@.skip(i as int),
                escaped,
                search@,
                repl@,
            ),
        decreases cs@.len() - i,
    {
        let ghost rules_pre = rules@;
        let ghost tail = cs@.skip(i as int);
        let c = cs[i];
        proof {
            assert(tail[0] == c);
            assert(tail.drop_first() =~= cs@.skip(i as int + 1));
        }
        if escaped {
            repl.push(c);
            escaped = false;
        } else if c == '\\' {
            escaped = true;
        } else if c == ':' {
            let s = string_of(&search);
            let r = string_of(&repl);
            proof {
                assert(rules_view(rules_pre.push((s, r))) =~= rules_view(rules_pre).push(
                    (search@, repl@),
                ));
            }
            rules.push((s, r));
            search = Vec::new();
            repl = Vec::new();
            proof {
                assert(rules_view(rules_pre) + (seq![(s@, r@)] + scan(
                    tail.drop_first(),
                    false,
                    Seq::empty(),
                    Seq::empty(),
                )) =~= rules_view(rules@) + scan(
                    tail.drop_first(),
                    false,
                    Seq::empty(),
                    Seq::empty(),
                ));
            }
        } else if c == '/' {
            let tmp = search;
            search = repl;
            repl = tmp;
        } else {
            repl.push(c);
        }
        i = i + 1;
    }
    proof {
        assert(cs@.skip(cs@.len() as int) =~= Seq::<char>::empty());
    }
    let s = string_of(&search);
    let r = string_of(&repl);
    let ghost rules_pre = rules@;
    proof {
        assert(rules_view(rules_pre.push((s, r))) =~= rules_view(rules_pre).push(
            (search@, repl@),
        ));
        assert(rules_view(rules_pre) + seq![(search@, repl@)] =~= rules_view(rules_pre).push(
            (search@, repl@),
        ));
    }
    rules.push((s, r));
    rules
}

/// The text that replacing every occurrence of `s` in `t` by `r` yields,
/// scanning left to right over non-overlapping occurrences. An empty search
/// string replaces nothing: the text comes back unchanged.
pub open spec fn replace_model(t: Seq<char>, s: Seq<char>, r: Seq<char>) -> Seq<char>
    decreases t.len(),
{
    if s.len() == 0 || t.len() == 0 {
        t
    } else if s.len() <= t.len() && t.take(s.len() as int) == s {
        r + replace_model(t.skip(s.len() as int), s, r)
    } else {
        seq![t[0]] + replace_model(t.drop_first(), s, r)
    }
}

/// The text after every rule has been applied in order, each to the
/// already-transformed output of the previous one.
pub open spec fn apply_rules_model(t: Seq<char>, rules: Seq<(Seq<char>, Seq<char>)>) -> Seq<char>
    decreases rules.len(),
{
    if rules.len() == 0 {
        t
    } else {
        apply_rules_model(replace_model(t, rules[0].0, rules[0].1), rules.drop_first())
    }
}

fn append_chars(out: &mut Vec<char>, src: &Vec<char>)
    ensures
        final(out)@ == old(out)@ + src@,
{
    let mut j: usize = 0;
    while j < src.len()
        invariant
            j <= src@.len(),
            out@ == old(out)@ + src@.take(j as int),
        decreases src@.len() - j,
    {
        out.push(src[j]);
        j = j + 1;
        proof {
            assert(old(out)@ + src@.take(j as int) =~= (old(out)@ + src@.take(
                j as int - 1,
            )).push(src@[j as int - 1]));
        }
    }
    proof {
        assert(old(out)@ + src@.take(src@.len() as int) =~= old(out)@ + src@);
    }
}

fn matches_at(t: &Vec<char>, s: &Vec<char>, i: usize) -> (b: bool)
    requires
        i + s@.len() <= t@.len(),
    ensures
        b == (t@.subrange(i as int, i as int + s@.len() as int) == s@),
{
    let ghost win = t@.subrange(i as int, i as int + s@.len() as int);
    let tlen: usize = t.len();
    let mut j: usize = 0;
    while j < s.len()
        invariant
            i + s@.len() <= t@.len(),
            tlen == t@.len(),
            j <= s@.len(),
            win == t@.subrange(i as int, i as int + s@.len() as int),
            forall|k: int| 0 <= k < j ==> win[k] == s@[k],
        decreases s@.len() - j,
    {
        if t[i + j] != s[j] {
            proof {
                assert(win[j as int] == t@[i + j as int]);
                assert(win != s@);
            }
            return false;
        }
        proof {
            assert(win[j as int] == t@[i + j as int]);
        }
        j = j + 1;
    }
    proof {
        assert(win =~= s@);
    }
    true
}

/// Replaces every occurrence of `s` in `t` by `r`, left to right over
/// non-overlapping occurrences; an empty `s` leaves `t` unchanged.
pub fn replace_chars(t: &Vec<char>, s: &Vec<char>, r: &Vec<char>) -> (out: Vec<char>)
    ensures
        out@ == replace_model(t@, s@, r@),
{
    let mut out: Vec<char> = Vec::new();
    if s.len() == 0 {
        append_chars(&mut out, t);
        return out;
    }
    let mut i: usize = 0;
    proof {
        assert(t@.skip(0) =~= t@);
        assert(out@ + replace_model(t@, s@, r@) =~= replace_model(t@, s@, r@));
    }
    while i < t.len()
        invariant
            s@.len() >= 1,
            i <= t@.len(),
            replace_model(t@, s@, r@) == out@ + replace_model(t@.skip(i as int), s@, r@),
        decreases t@.len() - i,
    {
        let ghost tail = t@.skip(i as int);
        let ghost out_pre = out@;
        if s.len() <= t.len() - i && matches_at(t, s, i) {
            proof {
                assert(tail.take(s@.len() as int) =~= t@.subrange(
                    i as int,
                    i as int + s@.len() as int,
                ));
                assert(tail.skip(s@.len() as int) =~= t@.skip(i as int + s@.len() as int));
            }
            append_chars(&mut out, r);
            i = i + s.len();
            proof {
                assert(out_pre + (r@ + replace_model(t@.skip(i as int), s@, r@)) =~= out@
                    + replace_model(t@.skip(i as int), s@, r@));
            }
        } else {
            proof {
                if i + s@.len() <= t@.len() {
                    assert(tail.take(s@.len() as int) =~= t@.subrange(
                        i as int,
                        i as int + s@.len() as int,
                    ));
                }
                assert(tail[0] == t@[i as int]);
                assert(tail.drop_first() =~= t@.skip(i as int + 1));
            }
            out.push(t[i]);
            i = i + 1;
            proof {
                assert(out_pre + (seq![t@[i as int - 1]] + replace_model(
                    t@.skip(i as int),
                    s@,
                    r@,
                )) =~= out@ + replace_model(t@.skip(i as int), s@, r@));
            }
        }
    }
    proof {
        assert(t@.skip(t@.len() as int) =~= Seq::<char>::empty());
        assert(out@ + Seq::<char>::empty() =~= out@);
    }
    out
}

/// Applies one (search, replacement) rule to a text. The empty search
/// string is a no-op: the text comes back unchanged.
pub fn apply_rule(text: &str, search: &str, replacement: &str) -> (out: String)
    ensures
        out@ == replace_model(text@, search@, replacement@),
        search@.len() == 0 ==> out@ == text@,
{
    let t = chars_of(text);
    let s = chars_of(search);
    let r = chars_of(replacement);
    let res = replace_chars(&t, &s, &r);
    string_of(&res)
}

/// Applies each rule in order, each to the already-transformed output of
/// the previous one.
pub fn apply_rules(text: &str, rules: &Vec<(String, String)>) -> (out: String)
    ensures
        out@ == apply_rules_model(text@, rules_view(rules@)),
{
    let mut cur = chars_of(text);
    let mut k: usize = 0;
    proof {
        assert(rules_view(rules@).skip(0) =~= rules_view(rules@));
    }
    while k < rules.len()
        invariant
            k <= rules@.len(),
            apply_rules_model(text@, rules_view(rules@)) == apply_rules_model(
                cur@,
                rules_view(rules@).skip(k as int),
            ),
        decreases rules@.len() - k,
    {
        let ghost rv = rules_view(rules@).skip(k as int);
        proof {
            assert(rv[0] == (rules@[k as int].0@, rules@[k as int].1@));
            assert(rv.drop_first() =~= rules_view(rules@).skip(k as int + 1));
        }
        let pair = &rules[k];
        let s = chars_of(pair.0.as_str());
        let r = chars_of(pair.1.as_str());
        cur = replace_chars(&cur, &s, &r);
        k = k + 1;
    }
    proof {
        assert(rules_view(rules@).skip(rules@.len() as int) =~= Seq::<(Seq<char>, Seq<char>)>::empty());
    }
    string_of(&cur)
}

} // verus!
