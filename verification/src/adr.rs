//! Architecture Decision Records: numbering and scaffolding.
//!
//! ADRs live under `docs/adr/` as `NNNN-<slug>.md`. A new record takes
//! the number after the highest one in use, and its text is the template
//! `0000-template.md` with the heading and status rewritten.

use vstd::prelude::*;

use crate::metadata::{split_on, split_seq};
use crate::text::{
    all_digits, chars_of, digits_value, format_zero_padded, push_char, push_str, string_of,
    zero_padded,
};

verus! {

// ---------------------------------------------------------------------------
// Parsing numbers
// ---------------------------------------------------------------------------

/// `str::parse::<u32>`: an optional `+`, then one or more ASCII digits
/// whose value fits in a `u32`.
pub open spec fn parse_u32_spec(s: Seq<char>) -> Option<nat> {
    let d = if s.len() > 0 && s[0] == '+' {
        s.drop_first()
    } else {
        s
    };
    if d.len() == 0 || !all_digits(d) || digits_value(d) > u32::MAX {
        None
    } else {
        Some(digits_value(d))
    }
}

/// The number of an ADR file name: its part before the first `-`, read as
/// a `u32`.
pub open spec fn adr_number_spec(name: Seq<char>) -> Option<nat> {
    parse_u32_spec(split_seq(name, '-')[0])
}

proof fn lemma_digits_value_push(s: Seq<char>, c: char)
    ensures
        digits_value(s.push(c)) == digits_value(s) * 10 + ((c as u32) - 48) as nat,
{
    assert(s.push(c).drop_last() == s);
}

fn parse_u32(s: &Vec<char>) -> (r: Option<u32>)
    ensures
        match r {
            Some(v) => parse_u32_spec(s@) == Some(v as nat),
            None => parse_u32_spec(s@) is None,
        },
{
    let start: usize = if s.len() > 0 && s[0] == '+' {
        1
    } else {
        0
    };
    let ghost d = s@.skip(start as int);
    proof {
        if start == 0 {
            assert(d == s@);
        } else {
            assert(d == s@.drop_first());
        }
    }
    if start >= s.len() {
        assert(d.len() == 0);
        return None;
    }
    let mut acc: u64 = 0;
    let mut i: usize = start;
    while i < s.len()
        invariant
            start <= i <= s@.len(),
            start < s@.len(),
            d == s@.skip(start as int),
            d == (if s@.len() > 0 && s@[0] == '+' {
                s@.drop_first()
            } else {
                s@
            }),
            all_digits(s@.subrange(start as int, i as int)),
            acc as nat == digits_value(s@.subrange(start as int, i as int)),
            acc <= u32::MAX,
        decreases s.len() - i,
    {
        let c = s[i];
        if !('0' <= c && c <= '9') {
            assert(d[i - start] == s@[i as int]);
            assert(!crate::text::is_ascii_digit(d[i - start]));
            return None;
        }
        let dv = (c as u32) - 48;
        proof {
            lemma_digits_value_push(s@.subrange(start as int, i as int), c);
            assert(s@.subrange(start as int, i + 1) == s@.subrange(start as int, i as int).push(c));
        }
        let next = acc * 10 + (dv as u64);
        i = i + 1;
        if next > 4294967295 {
            // Every further digit only makes the value larger.
            proof {
                assert(s@.subrange(start as int, s@.len() as int).take(i - start) =~= s@.subrange(
                    start as int,
                    i as int,
                ));
                lemma_value_grows(s@.subrange(start as int, i as int), s@.subrange(
                    start as int,
                    s@.len() as int,
                ));
                assert(s@.subrange(start as int, s@.len() as int) == d);
            }
            return None;
        }
        acc = next;
    }
    assert(s@.subrange(start as int, s@.len() as int) == d);
    Some(acc as u32)
}

/// A longer digit string with the same start is worth at least as much.
proof fn lemma_value_grows(p: Seq<char>, s: Seq<char>)
    requires
        p.len() <= s.len(),
        p == s.take(p.len() as int),
    ensures
        all_digits(s) ==> digits_value(p) <= digits_value(s),
    decreases s.len(),
{
    if p.len() == s.len() {
        assert(s.take(s.len() as int) == s);
    }
    if all_digits(s) && p.len() < s.len() {
        assert(s.drop_last().take(p.len() as int) == p);
        assert forall|i: int| 0 <= i < s.drop_last().len() implies crate::text::is_ascii_digit(
            #[trigger] s.drop_last()[i],
        ) by {
            assert(s.drop_last()[i] == s[i]);
        }
        lemma_value_grows(p, s.drop_last());
        assert(crate::text::is_ascii_digit(s[s.len() - 1]));
        assert(s.last() == s[s.len() - 1]);
        assert(digits_value(s) == digits_value(s.drop_last()) * 10 + ((s.last() as u32) - 48) as nat);
    }
}

/// The number of an ADR file name, when its part before the first `-` is
/// a `u32`.
pub fn adr_number(name: &str) -> (r: Option<u32>)
    ensures
        match r {
            Some(v) => adr_number_spec(name@) == Some(v as nat),
            None => adr_number_spec(name@) is None,
        },
{
    let parts = split_on(name, '-');
    proof {
        crate::metadata::lemma_split_seq_nonempty(name@, '-');
    }
    parse_u32(&parts[0])
}

// ---------------------------------------------------------------------------
// The next number
// ---------------------------------------------------------------------------

/// The highest ADR number among the file names, 0 when there is none.
pub open spec fn highest_adr(names: Seq<String>) -> nat
    decreases names.len(),
{
    if names.len() == 0 {
        0
    } else {
        let rest = highest_adr(names.drop_last());
        match adr_number_spec(names.last()@) {
            Some(n) => if n > rest {
                n
            } else {
                rest
            },
            None => rest,
        }
    }
}

/// The number for a new ADR: one more than the highest in use, or nothing
/// when the highest is `u32::MAX` and no next number exists.
pub fn next_adr_number(names: &Vec<String>) -> (r: Option<u32>)
    ensures
        match r {
            Some(n) => n as nat == highest_adr(names@) + 1,
            None => highest_adr(names@) == u32::MAX,
        },
{
    let mut highest: u32 = 0;
    let mut i: usize = 0;
    assert(names@.take(0) == Seq::<String>::empty());
    while i < names.len()
        invariant
            i <= names@.len(),
            highest as nat == highest_adr(names@.take(i as int)),
        decreases names.len() - i,
    {
        proof {
            assert(names@.take(i + 1).drop_last() == names@.take(i as int));
            assert(names@.take(i + 1).last() == names@[i as int]);
        }
        match adr_number(names[i].as_str()) {
            Some(n) => {
                if n > highest {
                    highest = n;
                }
            },
            None => {},
        }
        i = i + 1;
    }
    assert(names@.take(names@.len() as int) == names@);
    if highest == u32::MAX {
        None
    } else {
        Some(highest + 1)
    }
}

// ---------------------------------------------------------------------------
// Scaffolding
// ---------------------------------------------------------------------------

/// `format!("{n:04}-{slug}.md")`.
pub open spec fn adr_file_name_spec(n: nat, slug: Seq<char>) -> Seq<char> {
    zero_padded(n, 4) + "-"@ + slug + ".md"@
}

/// The file name of the ADR numbered `n`.
pub fn adr_file_name(n: u32, slug: &str) -> (r: String)
    ensures
        r@ == adr_file_name_spec(n as nat, slug@),
{
    let mut out = format_zero_padded(n as u64, 4);
    push_str(&mut out, "-");
    push_str(&mut out, slug);
    push_str(&mut out, ".md");
    out
}

/// `s.replace(pat, rep)`: every non-overlapping occurrence of `pat`, from
/// left to right, replaced by `rep`.
pub open spec fn replace_spec(s: Seq<char>, pat: Seq<char>, rep: Seq<char>) -> Seq<char>
    recommends
        pat.len() > 0,
    decreases s.len(),
    when pat.len() > 0
{
    if s.len() < pat.len() {
        s
    } else if s.take(pat.len() as int) == pat {
        rep + replace_spec(s.skip(pat.len() as int), pat, rep)
    } else {
        seq![s[0]] + replace_spec(s.drop_first(), pat, rep)
    }
}

/// Replaces every occurrence of `pat` in `s` by `rep`.
pub fn replace_all(s: &str, pat: &str, rep: &str) -> (r: String)
    requires
        pat@.len() > 0,
    ensures
        r@ == replace_spec(s@, pat@, rep@),
{
    let cs = chars_of(s);
    let ps = chars_of(pat);
    let n = cs.len();
    let m = ps.len();
    let mut out = String::new();
    let mut i: usize = 0;
    assert(cs@.skip(0) == cs@);
    while i < n
        invariant
            i <= n,
            n == cs@.len(),
            m == ps@.len(),
            m > 0,
            cs@ == s@,
            ps@ == pat@,
            replace_spec(cs@, ps@, rep@) == out@ + replace_spec(cs@.skip(i as int), ps@, rep@),
        decreases n - i,
    {
        let ghost rest = cs@.skip(i as int);
        // Does `pat` occur at position i?
        let mut matches = m <= n - i;
        let mut k: usize = 0;
        if matches {
            while k < m && cs[i + k] == ps[k]
                invariant
                    k <= m,
                    i + m <= n,
                    n == cs@.len(),
                    m == ps@.len(),
                    forall|j: int| 0 <= j < k ==> cs@[i + j] == ps@[j],
                decreases m - k,
            {
                k = k + 1;
            }
            matches = k == m;
        }
        proof {
            if i + m <= n {
                if matches {
                    assert(rest.take(m as int) =~= ps@);
                } else {
                    assert(rest.take(m as int)[k as int] != ps@[k as int]);
                }
            }
        }
        if matches {
            push_str(&mut out, rep);
            proof {
                assert(rest.skip(m as int) == cs@.skip(i + m));
            }
            i = i + m;
        } else {
            push_char(&mut out, cs[i]);
            proof {
                assert(rest.drop_first() == cs@.skip(i + 1));
                assert(rest[0] == cs@[i as int]);
            }
            i = i + 1;
        }
    }
    proof {
        assert(cs@.skip(n as int) == Seq::<char>::empty());
    }
    out
}

/// The text of the ADR numbered `n` titled `title`: the template with its
/// heading `# 0000. Template` renamed and its status set to proposed.
pub open spec fn adr_body_spec(template: Seq<char>, n: nat, title: Seq<char>) -> Seq<char> {
    replace_spec(
        replace_spec(template, "# 0000. Template"@, "# "@ + zero_padded(n, 4) + ". "@ + title),
        "- Status: superseded by \u{2026}\n"@,
        "- Status: proposed\n"@,
    )
}

/// Fills in the ADR template for record `n` titled `title`.
pub fn adr_body(template: &str, n: u32, title: &str) -> (r: String)
    ensures
        r@ == adr_body_spec(template@, n as nat, title@),
{
    let mut heading = string_of(&chars_of("# "));
    let num = format_zero_padded(n as u64, 4);
    push_str(&mut heading, num.as_str());
    push_str(&mut heading, ". ");
    push_str(&mut heading, title);
    proof {
        reveal_strlit("# 0000. Template");
        reveal_strlit("- Status: superseded by \u{2026}\n");
    }
    let renamed = replace_all(template, "# 0000. Template", heading.as_str());
    replace_all(renamed.as_str(), "- Status: superseded by \u{2026}\n", "- Status: proposed\n")
}

} // verus!
