//! Argus code blocks within Markdown:
//! "```argus" followed by `,key=value` or `,key` settings, then the code,
//! then a closing "```". A setting without a value is "true".
use std::ops::Range;
use vstd::prelude::*;

verus! {

/// One code block: its settings, in order, and its code, trimmed.
#[derive(PartialEq, Hash, Debug, Clone)]
pub struct ArgusBlock {
    pub config: Vec<(String, String)>,
    pub code: String,
}

/// Settings as character sequences.
pub open spec fn config_view(config: Seq<(String, String)>) -> Seq<(Seq<char>, Seq<char>)> {
    config.map_values(|p: (String, String)| (p.0@, p.1@))
}

/// The characters that end a setting's key or value.
pub open spec fn is_sym_char(c: char) -> bool {
    c != ',' && c != '=' && c != '\n' && c != '+'
}

/// The index after the run of key or value characters that starts at `i`.
pub open spec fn sym_end(cs: Seq<char>, i: int) -> int
    decreases cs.len() - i,
{
    if 0 <= i < cs.len() && is_sym_char(cs[i]) {
        sym_end(cs, i + 1)
    } else {
        i
    }
}

/// `pat` occurs in `cs` at `i`.
pub open spec fn occurs_at(cs: Seq<char>, i: int, pat: Seq<char>) -> bool {
    0 <= i && i + pat.len() <= cs.len() && cs.subrange(i, i + pat.len()) == pat
}

/// The settings that start at `i`, and the index after them.
pub open spec fn config_at(cs: Seq<char>, i: int) -> (Seq<(Seq<char>, Seq<char>)>, int)
    decreases cs.len() - i,
{
    if 0 <= i < cs.len() && cs[i] == ',' {
        let k_end = sym_end(cs, i + 1);
        let key = cs.subrange(i + 1, k_end);
        if i < k_end <= cs.len() && k_end < cs.len() && cs[k_end] == '=' {
            let v_end = sym_end(cs, k_end + 1);
            if k_end < v_end <= cs.len() {
                let rest = config_at(cs, v_end);
                (seq![(key, cs.subrange(k_end + 1, v_end))] + rest.0, rest.1)
            } else {
                (seq![(key, cs.subrange(k_end + 1, v_end))], v_end)
            }
        } else if i < k_end <= cs.len() {
            let rest = config_at(cs, k_end);
            (seq![(key, "true"@)] + rest.0, rest.1)
        } else {
            (seq![(key, "true"@)], k_end)
        }
    } else {
        (seq![], i)
    }
}

/// The first index at or after `j` where "```" occurs.
pub open spec fn find_fence(cs: Seq<char>, j: int) -> Option<int>
    decreases cs.len() - j,
{
    if j < 0 || j + 3 > cs.len() {
        None
    } else if occurs_at(cs, j, "```"@) {
        Some(j)
    } else {
        find_fence(cs, j + 1)
    }
}

/// What `char::is_whitespace` returns for `c`.
pub uninterp spec fn white_space(c: char) -> bool;

/// The first index in `i..hi` that holds no white space, else `hi`.
pub open spec fn lead(cs: Seq<char>, i: int, hi: int) -> int
    decreases hi - i,
{
    if i < hi && white_space(cs[i]) {
        lead(cs, i + 1, hi)
    } else {
        i
    }
}

/// The index after the last character of `lo..j` that is not white space,
/// else `lo`.
pub open spec fn trail(cs: Seq<char>, lo: int, j: int) -> int
    decreases j - lo,
{
    if lo < j && white_space(cs[j - 1]) {
        trail(cs, lo, j - 1)
    } else {
        j
    }
}

/// `cs[a..b]` without its leading and trailing white space.
pub open spec fn trimmed(cs: Seq<char>, a: int, b: int) -> Seq<char> {
    cs.subrange(lead(cs, a, b), trail(cs, lead(cs, a, b), b))
}

/// The block that starts at `i`: the index after it, its settings, its code.
pub open spec fn block_at(cs: Seq<char>, i: int) -> Option<
    (int, Seq<(Seq<char>, Seq<char>)>, Seq<char>),
> {
    if occurs_at(cs, i, "```argus"@) {
        let (config, j) = config_at(cs, i + 8);
        match find_fence(cs, j) {
            Some(m) => Some((m + 3, config, trimmed(cs, j, m))),
            None => None,
        }
    } else {
        None
    }
}

/// Every block from `i` on, scanning one character at a time and resuming
/// after each block found: (start, end, settings, code).
pub open spec fn blocks_from(cs: Seq<char>, i: int) -> Seq<
    (int, int, Seq<(Seq<char>, Seq<char>)>, Seq<char>),
>
    decreases cs.len() - i,
{
    if i < 0 || i >= cs.len() {
        seq![]
    } else {
        match block_at(cs, i) {
            Some((end, config, code)) => if i < end <= cs.len() {
                seq![(i, end, config, code)] + blocks_from(cs, end)
            } else {
                seq![(i, end, config, code)]
            },
            None => blocks_from(cs, i + 1),
        }
    }
}

/// The number of bytes of `c` in UTF-8.
pub open spec fn utf8_len(c: char) -> nat {
    if (c as u32) < 0x80 {
        1
    } else if (c as u32) < 0x800 {
        2
    } else if (c as u32) < 0x10000 {
        3
    } else {
        4
    }
}

/// The byte offset of the `i`-th character.
pub open spec fn byte_offset(cs: Seq<char>, i: int) -> nat
    decreases i,
{
    if i <= 0 || i > cs.len() {
        0
    } else {
        byte_offset(cs, i - 1) + utf8_len(cs[i - 1])
    }
}

/// Relies on str::chars: the characters of `s`, in order.
#[verifier::external_body]
fn chars_of(s: &str) -> (r: Vec<char>)
    ensures
        r@ == s@,
{
    s.chars().collect()
}

/// Relies on FromIterator<char> for String: the string of `cs[from..to]`.
#[verifier::external_body]
fn string_of(cs: &Vec<char>, from: usize, to: usize) -> (r: String)
    requires
        from <= to <= cs@.len(),
    ensures
        r@ == cs@.subrange(from as int, to as int),
{
    cs[from..to].iter().collect()
}

/// Relies on char::is_whitespace.
#[verifier::external_body]
fn is_whitespace(c: char) -> (r: bool)
    ensures
        r == white_space(c),
{
    c.is_whitespace()
}

fn char_len(c: char) -> (r: usize)
    ensures
        r == utf8_len(c),
{
    let u = c as u32;
    if u < 0x80 {
        1
    } else if u < 0x800 {
        2
    } else if u < 0x10000 {
        3
    } else {
        4
    }
}

fn fence_at(cs: &Vec<char>, i: usize) -> (r: bool)
    ensures
        r == occurs_at(cs@, i as int, "```"@),
{
    proof {
        reveal_strlit("```");
    }
    if i <= cs.len() && 3 <= cs.len() - i {
        let r = cs[i] == '`' && cs[i + 1] == '`' && cs[i + 2] == '`';
        let ghost sub = cs@.subrange(i as int, i + 3);
        assert(r ==> sub =~= "```"@);
        assert(sub == "```"@ ==> sub[0] == '`' && sub[1] == '`' && sub[2] == '`');
        r
    } else {
        false
    }
}

fn opener_at(cs: &Vec<char>, i: usize) -> (r: bool)
    ensures
        r == occurs_at(cs@, i as int, "```argus"@),
{
    proof {
        reveal_strlit("```argus");
    }
    if i <= cs.len() && 8 <= cs.len() - i {
        let r = cs[i] == '`' && cs[i + 1] == '`' && cs[i + 2] == '`' && cs[i + 3] == 'a' && cs[i
            + 4] == 'r' && cs[i + 5] == 'g' && cs[i + 6] == 'u' && cs[i + 7] == 's';
        let ghost sub = cs@.subrange(i as int, i + 8);
        assert(r ==> sub =~= "```argus"@);
        assert(sub == "```argus"@ ==> sub[0] == '`' && sub[1] == '`' && sub[2] == '`' && sub[3]
            == 'a' && sub[4] == 'r' && sub[5] == 'g' && sub[6] == 'u' && sub[7] == 's');
        r
    } else {
        false
    }
}

fn scan_sym(cs: &Vec<char>, i: usize) -> (r: usize)
    requires
        i <= cs@.len(),
    ensures
        r == sym_end(cs@, i as int),
        i <= r <= cs@.len(),
{
    let mut k = i;
    while k < cs.len() && cs[k] != ',' && cs[k] != '=' && cs[k] != '\n' && cs[k] != '+'
        invariant
            i <= k <= cs@.len(),
            sym_end(cs@, i as int) == sym_end(cs@, k as int),
        decreases cs@.len() - k,
    {
        k += 1;
    }
    k
}

fn parse_config(cs: &Vec<char>, i: usize) -> (r: (Vec<(String, String)>, usize))
    requires
        i <= cs@.len(),
    ensures
        config_view(r.0@) == config_at(cs@, i as int).0,
        r.1 == config_at(cs@, i as int).1,
        i <= r.1 <= cs@.len(),
{
    let mut out: Vec<(String, String)> = Vec::new();
    let mut k = i;
    while k < cs.len() && cs[k] == ','
        invariant
            i <= k <= cs@.len(),
            config_at(cs@, i as int).0 == config_view(out@) + config_at(cs@, k as int).0,
            config_at(cs@, i as int).1 == config_at(cs@, k as int).1,
        decreases cs@.len() - k,
    {
        let ghost before = out@;
        let k_end = scan_sym(cs, k + 1);
        let key = string_of(cs, k + 1, k_end);
        if k_end < cs.len() && cs[k_end] == '=' {
            let v_end = scan_sym(cs, k_end + 1);
            let value = string_of(cs, k_end + 1, v_end);
            out.push((key, value));
            k = v_end;
        } else {
            proof {
                reveal_strlit("true");
            }
            out.push((key, String::from_str("true")));
            k = k_end;
        }
        assert(config_view(out@) =~= config_view(before) + config_view(seq![out@.last()]));
        assert(config_view(before) + config_view(seq![out@.last()]) + config_at(cs@, k as int).0
            =~= config_view(before) + (config_view(seq![out@.last()]) + config_at(
            cs@,
            k as int,
        ).0));
    }
    assert(config_at(cs@, k as int).0 =~= Seq::<(Seq<char>, Seq<char>)>::empty());
    assert(config_view(out@) + config_at(cs@, k as int).0 =~= config_view(out@));
    (out, k)
}

fn scan_fence(cs: &Vec<char>, j: usize) -> (r: Option<usize>)
    requires
        j <= cs@.len(),
    ensures
        r matches Some(m) ==> find_fence(cs@, j as int) == Some(m as int) && j <= m && m + 3
            <= cs@.len(),
        r is None ==> find_fence(cs@, j as int) is None,
{
    let mut m = j;
    while m <= cs.len() && 3 <= cs.len() - m
        invariant
            j <= m,
            find_fence(cs@, j as int) == find_fence(cs@, m as int),
        decreases cs@.len() - m,
    {
        if fence_at(cs, m) {
            return Some(m);
        }
        m += 1;
    }
    None
}

fn trim_bounds(cs: &Vec<char>, a: usize, b: usize) -> (r: (usize, usize))
    requires
        a <= b <= cs@.len(),
    ensures
        r.0 == lead(cs@, a as int, b as int),
        r.1 == trail(cs@, r.0 as int, b as int),
        a <= r.0 <= r.1 <= b,
{
    let mut lo = a;
    while lo < b && is_whitespace(cs[lo])
        invariant
            a <= lo <= b,
            b <= cs@.len(),
            lead(cs@, a as int, b as int) == lead(cs@, lo as int, b as int),
        decreases b - lo,
    {
        lo += 1;
    }
    let mut hi = b;
    while lo < hi && is_whitespace(cs[hi - 1])
        invariant
            lo <= hi <= b,
            b <= cs@.len(),
            trail(cs@, lo as int, b as int) == trail(cs@, lo as int, hi as int),
        decreases hi - lo,
    {
        hi -= 1;
    }
    (lo, hi)
}

fn parse_block(cs: &Vec<char>, i: usize) -> (r: Option<(usize, ArgusBlock)>)
    requires
        i <= cs@.len(),
    ensures
        r matches Some((end, b)) ==> block_at(cs@, i as int) == Some(
            (end as int, config_view(b.config@), b.code@),
        ) && i < end <= cs@.len(),
        r is None ==> block_at(cs@, i as int) is None,
{
    proof {
        reveal_strlit("```argus");
    }
    let n = cs.len();
    if !opener_at(cs, i) {
        return None;
    }
    assert(i + 8 <= n);
    let (config, j) = parse_config(cs, i + 8);
    match scan_fence(cs, j) {
        Some(m) => {
            let (lo, hi) = trim_bounds(cs, j, m);
            let code = string_of(cs, lo, hi);
            Some((m + 3, ArgusBlock { config, code }))
        },
        None => None,
    }
}

proof fn lemma_byte_offset_bound(cs: Seq<char>, i: int)
    requires
        0 <= i <= cs.len(),
    ensures
        byte_offset(cs, i) <= 4 * i,
    decreases i,
{
    if i > 0 {
        lemma_byte_offset_bound(cs, i - 1);
    }
}

fn bytes_between(cs: &Vec<char>, from: usize, to: usize, at: usize) -> (r: usize)
    requires
        from <= to <= cs@.len(),
        at == byte_offset(cs@, from as int),
        4 * cs@.len() <= usize::MAX,
    ensures
        r == byte_offset(cs@, to as int),
{
    let mut k = from;
    let mut b = at;
    while k < to
        invariant
            from <= k <= to,
            to <= cs@.len(),
            4 * cs@.len() <= usize::MAX,
            b == byte_offset(cs@, k as int),
        decreases to - k,
    {
        proof {
            lemma_byte_offset_bound(cs@, k as int + 1);
        }
        b = b + char_len(cs[k]);
        k += 1;
    }
    b
}

/// A block found by `parse_all`: its range in bytes, its settings and code.
pub open spec fn found_block(
    cs: Seq<char>,
    found: (Range<usize>, ArgusBlock),
    spec_block: (int, int, Seq<(Seq<char>, Seq<char>)>, Seq<char>),
) -> bool {
    &&& found.0.start == byte_offset(cs, spec_block.0)
    &&& found.0.end == byte_offset(cs, spec_block.1)
    &&& config_view(found.1.config@) == spec_block.2
    &&& found.1.code@ == spec_block.3
}

impl ArgusBlock {
    /// Every block in `content`, with its byte range.
    pub fn parse_all(content: &str) -> (r: Vec<(Range<usize>, ArgusBlock)>)
        requires
            4 * content@.len() <= usize::MAX,
        ensures
            r@.len() == blocks_from(content@, 0).len(),
            forall|k: int|
                0 <= k < r@.len() ==> found_block(
                    content@,
                    #[trigger] r@[k],
                    blocks_from(content@, 0)[k],
                ),
    {
        let cs = chars_of(content);
        let ghost all = blocks_from(cs@, 0);
        let mut out: Vec<(Range<usize>, ArgusBlock)> = Vec::new();
        let mut i: usize = 0;
        let mut byte: usize = 0;
        while i < cs.len()
            invariant
                i <= cs@.len(),
                4 * cs@.len() <= usize::MAX,
                byte == byte_offset(cs@, i as int),
                all == blocks_from(cs@, 0),
                out@.len() + blocks_from(cs@, i as int).len() == all.len(),
                forall|k: int| 0 <= k < out@.len() ==> found_block(cs@, #[trigger] out@[k], all[k]),
                forall|k: int|
                    0 <= k < blocks_from(cs@, i as int).len() ==> #[trigger] blocks_from(
                        cs@,
                        i as int,
                    )[k] == all[out@.len() + k],
            decreases cs@.len() - i,
        {
            match parse_block(&cs, i) {
                Some((end, block)) => {
                    let end_byte = bytes_between(&cs, i, end, byte);
                    let ghost rest = blocks_from(cs@, end as int);
                    assert(blocks_from(cs@, i as int) == seq![
                        (i as int, end as int, config_view(block.config@), block.code@),
                    ] + rest);
                    assert(blocks_from(cs@, i as int)[0] == all[out@.len() as int]);
                    assert forall|k: int| 0 <= k < rest.len() implies #[trigger] rest[k]
                        == all[out@.len() + 1 + k] by {
                        assert(rest[k] == blocks_from(cs@, i as int)[k + 1]);
                    }
                    out.push((Range { start: byte, end: end_byte }, block));
                    i = end;
                    byte = end_byte;
                },
                None => {
                    proof {
                        lemma_byte_offset_bound(cs@, i as int + 1);
                    }
                    byte = byte + char_len(cs[i]);
                    i += 1;
                },
            }
        }
        assert(blocks_from(cs@, i as int).len() == 0);
        out
    }
}

} // verus!
