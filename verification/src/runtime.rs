//! Reading the terminal's process state: parsers for the kernel's per-process
//! text files and the decisions taken on what they report.
use vstd::prelude::*;
use crate::text::chars_of;

verus! {

// ---------------------------------------------------------------------------
// Whitespace and fields
// ---------------------------------------------------------------------------

/// Unicode `White_Space`, the set that `char::is_whitespace` tests.
pub open spec fn is_whitespace(c: char) -> bool {
    let u = c as u32;
    ||| 9 <= u <= 13
    ||| u == 32
    ||| u == 0x85
    ||| u == 0xa0
    ||| u == 0x1680
    ||| 0x2000 <= u <= 0x200a
    ||| u == 0x2028
    ||| u == 0x2029
    ||| u == 0x202f
    ||| u == 0x205f
    ||| u == 0x3000
}

/// Whether `c` is Unicode whitespace.
pub fn whitespace(c: char) -> (r: bool)
    ensures
        r == is_whitespace(c),
{
    let u = c as u32;
    (9 <= u && u <= 13) || u == 32 || u == 0x85 || u == 0xa0 || u == 0x1680 || (0x2000 <= u && u
        <= 0x200a) || u == 0x2028 || u == 0x2029 || u == 0x202f || u == 0x205f || u == 0x3000
}

/// The maximal runs of non-whitespace characters of `s`, in order
/// (what `str::split_whitespace` yields).
pub open spec fn fields(s: Seq<char>) -> Seq<Seq<char>>
    decreases s.len(),
{
    if s.len() == 0 {
        seq![]
    } else {
        let init = s.drop_last();
        let c = s.last();
        let f = fields(init);
        if is_whitespace(c) {
            f
        } else if init.len() > 0 && !is_whitespace(init.last()) {
            f.update(f.len() - 1, f.last().push(c))
        } else {
            f.push(seq![c])
        }
    }
}

/// A sequence that ends in a non-whitespace character has at least one field.
pub proof fn lemma_fields_nonempty(s: Seq<char>)
    requires
        s.len() > 0,
        !is_whitespace(s.last()),
    ensures
        fields(s).len() > 0,
    decreases s.len(),
{
    let init = s.drop_last();
    if init.len() > 0 && !is_whitespace(init.last()) {
        lemma_fields_nonempty(init);
    }
}

/// Splits `s` at whitespace, dropping empty pieces.
pub fn split_fields(s: &Vec<char>) -> (r: Vec<Vec<char>>)
    ensures
        r@.map_values(|f: Vec<char>| f@) == fields(s@),
{
    let mut out: Vec<Vec<char>> = Vec::new();
    let mut i: usize = 0;
    while i < s.len()
        invariant
            i <= s.len(),
            out@.map_values(|f: Vec<char>| f@) == fields(s@.take(i as int)),
        decreases s.len() - i,
    {
        let c = s[i];
        let ghost pre = s@.take(i as int);
        let ghost post = s@.take(i as int + 1);
        assert(post.drop_last() =~= pre);
        assert(post.last() == c);
        if whitespace(c) {
        } else if i > 0 && !whitespace(s[i - 1]) {
            proof {
                assert(pre.last() == s@[i - 1]);
                lemma_fields_nonempty(pre);
            }
            let mut last = out.pop().unwrap();
            last.push(c);
            out.push(last);
            proof {
                let f = fields(pre);
                assert(out@.map_values(|f: Vec<char>| f@) =~= f.update(f.len() - 1, f.last().push(c)));
            }
        } else {
            let mut one: Vec<char> = Vec::new();
            one.push(c);
            out.push(one);
            proof {
                assert(i > 0 ==> pre.last() == s@[i - 1]);
                assert(out@.map_values(|f: Vec<char>| f@) =~= fields(pre).push(seq![c]));
            }
        }
        i = i + 1;
    }
    assert(s@.take(s.len() as int) =~= s@);
    out
}

// ---------------------------------------------------------------------------
// Integer parsing
// ---------------------------------------------------------------------------

pub open spec fn is_digit(c: char) -> bool {
    48 <= (c as u32) <= 57
}

pub open spec fn all_digits(s: Seq<char>) -> bool {
    forall|i: int| 0 <= i < s.len() ==> is_digit(s[i])
}

/// The number that the decimal digits `s` spell.
pub open spec fn digits_value(s: Seq<char>) -> int
    decreases s.len(),
{
    if s.len() == 0 {
        0
    } else {
        digits_value(s.drop_last()) * 10 + ((s.last() as u32) - 48)
    }
}

/// What `str::parse::<i32>` gives: an optional sign, then at least one decimal digit,
/// within the range of `i32`.
pub open spec fn spec_parse_i32(s: Seq<char>) -> Option<i32> {
    if s.len() == 0 {
        None
    } else if (s[0] == '+' || s[0] == '-') && s.len() == 1 {
        None
    } else {
        let neg = s[0] == '-';
        let d = if s[0] == '+' || s[0] == '-' {
            s.drop_first()
        } else {
            s
        };
        let v = if neg {
            -digits_value(d)
        } else {
            digits_value(d)
        };
        if all_digits(d) && i32::MIN <= v <= i32::MAX {
            Some(v as i32)
        } else {
            None
        }
    }
}

/// What `str::parse::<u32>` gives: an optional `+`, then at least one decimal digit,
/// within the range of `u32`.
pub open spec fn spec_parse_u32(s: Seq<char>) -> Option<u32> {
    if s.len() == 0 {
        None
    } else if s[0] == '+' && s.len() == 1 {
        None
    } else {
        let d = if s[0] == '+' {
            s.drop_first()
        } else {
            s
        };
        if all_digits(d) && digits_value(d) <= u32::MAX {
            Some(digits_value(d) as u32)
        } else {
            None
        }
    }
}

proof fn lemma_digits_value_nonneg(s: Seq<char>)
    requires
        all_digits(s),
    ensures
        digits_value(s) >= 0,
    decreases s.len(),
{
    if s.len() > 0 {
        assert(all_digits(s.drop_last()));
        lemma_digits_value_nonneg(s.drop_last());
    }
}

/// A longer run of digits never spells a smaller number.
proof fn lemma_digits_value_grows(s: Seq<char>, i: int)
    requires
        all_digits(s),
        0 <= i <= s.len(),
    ensures
        digits_value(s.take(i)) <= digits_value(s),
    decreases s.len() - i,
{
    if i < s.len() {
        lemma_digits_value_grows(s, i + 1);
        let t = s.take(i + 1);
        assert(t.drop_last() =~= s.take(i));
        assert(all_digits(s.take(i)));
        lemma_digits_value_nonneg(s.take(i));
    } else {
        assert(s.take(i) =~= s);
    }
}

/// The value of the digits `s[start..]` if they are all digits and it is at most `limit`.
fn digits_upto(s: &Vec<char>, start: usize, limit: u64) -> (r: Option<u64>)
    requires
        start <= s.len(),
        limit <= u32::MAX + 1,
    ensures
        ({
            let d = s@.subrange(start as int, s.len() as int);
            match r {
                Some(v) => all_digits(d) && v == digits_value(d) && v <= limit,
                None => !(all_digits(d) && digits_value(d) <= limit),
            }
        }),
{
    let ghost d = s@.subrange(start as int, s.len() as int);
    let mut acc: u64 = 0;
    let mut k: usize = start;
    while k < s.len()
        invariant
            start <= k <= s.len(),
            d == s@.subrange(start as int, s.len() as int),
            all_digits(d.take(k - start)),
            acc == digits_value(d.take(k - start)),
            acc <= limit,
            limit <= u32::MAX + 1,
        decreases s.len() - k,
    {
        let c = s[k];
        let u = c as u32;
        let ghost pre = d.take(k - start);
        let ghost post = d.take(k - start + 1);
        assert(post.drop_last() =~= pre);
        assert(post.last() == c);
        if u < 48 || u > 57 {
            assert(!all_digits(d)) by {
                assert(d[k - start] == c);
            }
            return None;
        }
        acc = acc * 10 + (u - 48) as u64;
        k = k + 1;
        assert(all_digits(post));
        if acc > limit {
            proof {
                if all_digits(d) {
                    lemma_digits_value_grows(d, k - start);
                }
            }
            return None;
        }
    }
    assert(d.take(k - start) =~= d);
    Some(acc)
}

/// Parses `s` as `str::parse::<i32>` does.
pub fn parse_i32(s: &Vec<char>) -> (r: Option<i32>)
    ensures
        r == spec_parse_i32(s@),
{
    if s.len() == 0 {
        return None;
    }
    let c0 = s[0];
    if (c0 == '+' || c0 == '-') && s.len() == 1 {
        return None;
    }
    let start: usize = if c0 == '+' || c0 == '-' { 1 } else { 0 };
    let neg = c0 == '-';
    let ghost d = if c0 == '+' || c0 == '-' { s@.drop_first() } else { s@ };
    assert(d =~= s@.subrange(start as int, s.len() as int));
    let limit: u64 = if neg { 2147483648 } else { 2147483647 };
    match digits_upto(s, start, limit) {
        Some(v) => {
            if neg {
                if v == 2147483648 {
                    Some(-2147483648i32)
                } else {
                    let w = v as i32;
                    Some(-w)
                }
            } else {
                Some(v as i32)
            }
        },
        None => None,
    }
}

/// Parses `s` as `str::parse::<u32>` does.
pub fn parse_u32(s: &Vec<char>) -> (r: Option<u32>)
    ensures
        r == spec_parse_u32(s@),
{
    if s.len() == 0 {
        return None;
    }
    let c0 = s[0];
    if c0 == '+' && s.len() == 1 {
        return None;
    }
    let start: usize = if c0 == '+' { 1 } else { 0 };
    let ghost d = if c0 == '+' { s@.drop_first() } else { s@ };
    assert(d =~= s@.subrange(start as int, s.len() as int));
    match digits_upto(s, start, 4294967295) {
        Some(v) => Some(v as u32),
        None => None,
    }
}

// ---------------------------------------------------------------------------
// /proc/<pid>/stat
// ---------------------------------------------------------------------------

/// Position of the last `)` in `s` (the end of the command name), or -1.
pub open spec fn last_paren(s: Seq<char>) -> int {
    match s.index_of_last(')') {
        Some(i) => i,
        None => -1,
    }
}

/// The stat text after the command name: it starts two characters past the last `)`.
pub open spec fn stat_rest(s: Seq<char>) -> Seq<char> {
    s.subrange(last_paren(s) + 2, s.len() as int)
}

/// The slice that starts two bytes past the last `)` exists: a character follows the `)`
/// and it takes one byte.
pub open spec fn stat_slice_ok(s: Seq<char>) -> bool {
    s.contains(')') ==> last_paren(s) + 1 < s.len() && (s[last_paren(s) + 1] as u32) < 128
}

/// Whether the text of a stat file can be cut two bytes past its last `)`; see
/// `stat_slice_ok`.
pub fn stat_text_sliceable(data: &str) -> (r: bool)
    ensures
        r == stat_slice_ok(data@),
{
    let s = chars_of(data);
    proof {
        s@.index_of_last_ensures(')');
    }
    let mut k: usize = s.len();
    while k > 0
        invariant
            k <= s.len(),
            forall|j: int| k <= j < s.len() ==> s@[j] != ')',
        ensures
            k == 0 || s@[k - 1] == ')',
        decreases k,
    {
        if s[k - 1] == ')' {
            break;
        }
        k = k - 1;
    }
    if k == 0 {
        assert(!s@.contains(')'));
        return true;
    }
    let pos = k - 1;
    proof {
        let li = s@.index_of_last(')');
        assert(s@.contains(')')) by {
            assert(s@[pos as int] == ')');
        }
        let l = li.unwrap();
        if l < pos {
            assert(s@[pos as int] != ')');
        }
        assert(last_paren(s@) == pos);
    }
    pos + 1 < s.len() && (s[pos + 1] as u32) < 128
}

/// Process group and terminal foreground process group read from the text of a
/// `/proc/<pid>/stat` file: the third and sixth fields after the command name.
pub open spec fn spec_parse_pgrp_tpgid(s: Seq<char>) -> Option<(i32, i32)> {
    if !s.contains(')') {
        None
    } else {
        let f = fields(stat_rest(s));
        if f.len() <= 5 {
            None
        } else {
            match (spec_parse_i32(f[2]), spec_parse_i32(f[5])) {
                (Some(pgrp), Some(tpgid)) => Some((pgrp, tpgid)),
                _ => None,
            }
        }
    }
}

/// Reads the process group and the terminal's foreground process group from the text of
/// a `/proc/<pid>/stat` file.
pub fn parse_pgrp_tpgid(data: &str) -> (r: Option<(i32, i32)>)
    requires
        stat_slice_ok(data@),
    ensures
        r == spec_parse_pgrp_tpgid(data@),
{
    let s = chars_of(data);
    proof {
        s@.index_of_last_ensures(')');
    }
    let mut k: usize = s.len();
    while k > 0
        invariant
            k <= s.len(),
            forall|j: int| k <= j < s.len() ==> s@[j] != ')',
        ensures
            k == 0 || s@[k - 1] == ')',
        decreases k,
    {
        if s[k - 1] == ')' {
            break;
        }
        k = k - 1;
    }
    if k == 0 {
        assert(!s@.contains(')'));
        return None;
    }
    let pos = k - 1;
    proof {
        let li = s@.index_of_last(')');
        assert(s@.contains(')')) by {
            assert(s@[pos as int] == ')');
        }
        let l = li.unwrap();
        if l < pos {
            assert(s@[pos as int] != ')');
        }
        assert(last_paren(s@) == pos);
    }
    let mut rest: Vec<char> = Vec::new();
    let mut i: usize = pos + 2;
    while i < s.len()
        invariant
            pos + 2 <= i <= s.len() || (i == pos + 2 && pos + 2 > s.len()),
            pos + 1 < s.len(),
            rest@ == s@.subrange(pos + 2, i as int),
        decreases s.len() - i,
    {
        rest.push(s[i]);
        i = i + 1;
        proof {
            assert(rest@ =~= s@.subrange(pos + 2, i as int));
        }
    }
    assert(rest@ =~= stat_rest(s@));
    let f = split_fields(&rest);
    if f.len() <= 5 {
        assert(f@.map_values(|x: Vec<char>| x@).len() == f@.len());
        return None;
    }
    assert(f@.map_values(|x: Vec<char>| x@)[2] == f@[2]@);
    assert(f@.map_values(|x: Vec<char>| x@)[5] == f@[5]@);
    let pgrp = parse_i32(&f[2]);
    let tpgid = parse_i32(&f[5]);
    match (pgrp, tpgid) {
        (Some(p), Some(t)) => Some((p, t)),
        _ => None,
    }
}

// ---------------------------------------------------------------------------
// Command names
// ---------------------------------------------------------------------------

/// `s` without its leading whitespace.
pub open spec fn trim_start(s: Seq<char>) -> Seq<char>
    decreases s.len(),
{
    if s.len() > 0 && is_whitespace(s[0]) {
        trim_start(s.drop_first())
    } else {
        s
    }
}

/// `s` without its trailing whitespace.
pub open spec fn trim_end(s: Seq<char>) -> Seq<char>
    decreases s.len(),
{
    if s.len() > 0 && is_whitespace(s.last()) {
        trim_end(s.drop_last())
    } else {
        s
    }
}

/// The process name in the text of a `/proc/<pid>/comm` file: trimmed, and without the
/// `-` that marks a login shell.
pub open spec fn spec_comm_name(s: Seq<char>) -> Seq<char> {
    let t = trim_end(trim_start(s));
    if t.len() > 0 && t[0] == '-' {
        t.drop_first()
    } else {
        t
    }
}

/// The process name in the text of a `/proc/<pid>/comm` file: surrounding whitespace
/// trimmed and one leading `-` (login-shell convention) removed.
pub fn comm_name(comm: &str) -> (r: String)
    ensures
        r@ == spec_comm_name(comm@),
{
    let c = chars_of(comm);
    let n = c.len();
    let mut a: usize = 0;
    assert(c@.subrange(0, n as int) =~= c@);
    while a < n && whitespace(c[a])
        invariant
            n == c@.len(),
            a <= n,
            trim_start(c@) == trim_start(c@.subrange(a as int, n as int)),
        decreases n - a,
    {
        assert(c@.subrange(a as int, n as int).drop_first() =~= c@.subrange(a + 1, n as int));
        a = a + 1;
    }
    assert(trim_start(c@.subrange(a as int, n as int)) == c@.subrange(a as int, n as int));
    let mut b: usize = n;
    while b > a && whitespace(c[b - 1])
        invariant
            n == c@.len(),
            a <= b <= n,
            trim_end(c@.subrange(a as int, n as int)) == trim_end(c@.subrange(a as int, b as int)),
        decreases b - a,
    {
        assert(c@.subrange(a as int, b as int).drop_last() =~= c@.subrange(a as int, b - 1));
        b = b - 1;
    }
    assert(trim_end(c@.subrange(a as int, b as int)) == c@.subrange(a as int, b as int));
    let ghost t = c@.subrange(a as int, b as int);
    let mut start = a;
    if b > a && c[a] == '-' {
        start = a + 1;
        assert(t.drop_first() =~= c@.subrange(start as int, b as int));
    }
    let piece = comm.substring_char(start, b);
    String::from_str(piece)
}

/// `s` with surrounding whitespace removed (what `str::trim` gives).
pub fn trim(s: &str) -> (r: String)
    ensures
        r@ == trim_end(trim_start(s@)),
{
    let c = chars_of(s);
    let n = c.len();
    let mut a: usize = 0;
    assert(c@.subrange(0, n as int) =~= c@);
    while a < n && whitespace(c[a])
        invariant
            n == c@.len(),
            a <= n,
            trim_start(c@) == trim_start(c@.subrange(a as int, n as int)),
        decreases n - a,
    {
        assert(c@.subrange(a as int, n as int).drop_first() =~= c@.subrange(a + 1, n as int));
        a = a + 1;
    }
    assert(trim_start(c@.subrange(a as int, n as int)) == c@.subrange(a as int, n as int));
    let mut b: usize = n;
    while b > a && whitespace(c[b - 1])
        invariant
            n == c@.len(),
            a <= b <= n,
            trim_end(c@.subrange(a as int, n as int)) == trim_end(c@.subrange(a as int, b as int)),
        decreases b - a,
    {
        assert(c@.subrange(a as int, b as int).drop_last() =~= c@.subrange(a as int, b - 1));
        b = b - 1;
    }
    assert(trim_end(c@.subrange(a as int, b as int)) == c@.subrange(a as int, b as int));
    String::from_str(s.substring_char(a, b))
}

/// The names of the shells a terminal may run.
pub open spec fn shell_names() -> Seq<Seq<char>> {
    seq![
        "bash"@, "zsh"@, "fish"@, "sh"@, "dash"@, "ksh"@, "csh"@, "tcsh"@, "nu"@,
        "nushell"@, "elvish"@, "ion"@, "xonsh"@, "pwsh"@,
    ]
}

fn shell_name_at(i: usize) -> (r: &'static str)
    requires
        i < 14,
    ensures
        r@ == shell_names()[i as int],
{
    match i {
        0 => "bash",
        1 => "zsh",
        2 => "fish",
        3 => "sh",
        4 => "dash",
        5 => "ksh",
        6 => "csh",
        7 => "tcsh",
        8 => "nu",
        9 => "nushell",
        10 => "elvish",
        11 => "ion",
        12 => "xonsh",
        _ => "pwsh",
    }
}

/// Whether `name` is one of the known shells.
pub fn is_shell(name: &str) -> (r: bool)
    ensures
        r == shell_names().contains(name@),
{
    let mut i: usize = 0;
    while i < 14
        invariant
            i <= 14,
            shell_names().len() == 14,
            forall|j: int| 0 <= j < i ==> shell_names()[j] != name@,
        decreases 14 - i,
    {
        if crate::text::str_equal(shell_name_at(i), name) {
            return true;
        }
        i = i + 1;
    }
    false
}

// ---------------------------------------------------------------------------
// /proc/<pid>/status
// ---------------------------------------------------------------------------

/// The pieces of `s` between newlines (always at least one).
pub open spec fn split_lines(s: Seq<char>) -> Seq<Seq<char>>
    decreases s.len(),
{
    if s.len() == 0 {
        seq![seq![]]
    } else {
        let f = split_lines(s.drop_last());
        if s.last() == '\n' {
            f.push(seq![])
        } else {
            f.update(f.len() - 1, f.last().push(s.last()))
        }
    }
}

proof fn lemma_split_lines_nonempty(s: Seq<char>)
    ensures
        split_lines(s).len() >= 1,
    decreases s.len(),
{
    if s.len() > 0 {
        lemma_split_lines_nonempty(s.drop_last());
    }
}

fn lines_of(s: &Vec<char>) -> (r: Vec<Vec<char>>)
    ensures
        r@.map_values(|f: Vec<char>| f@) == split_lines(s@),
{
    let mut out: Vec<Vec<char>> = Vec::new();
    out.push(Vec::new());
    assert(out@.map_values(|f: Vec<char>| f@) =~= split_lines(s@.take(0)));
    let mut i: usize = 0;
    while i < s.len()
        invariant
            i <= s.len(),
            out@.map_values(|f: Vec<char>| f@) == split_lines(s@.take(i as int)),
        decreases s.len() - i,
    {
        let c = s[i];
        let ghost pre = s@.take(i as int);
        let ghost post = s@.take(i as int + 1);
        assert(post.drop_last() =~= pre);
        assert(post.last() == c);
        proof {
            lemma_split_lines_nonempty(pre);
        }
        if c == '\n' {
            out.push(Vec::new());
            assert(out@.map_values(|f: Vec<char>| f@) =~= split_lines(pre).push(seq![]));
        } else {
            let mut last = out.pop().unwrap();
            last.push(c);
            out.push(last);
            proof {
                let f = split_lines(pre);
                assert(out@.map_values(|f: Vec<char>| f@) =~= f.update(f.len() - 1, f.last().push(c)));
            }
        }
        i = i + 1;
    }
    assert(s@.take(s.len() as int) =~= s@);
    out
}

pub open spec fn is_uid_line(l: Seq<char>) -> bool {
    l.len() >= 4 && l[0] == 'U' && l[1] == 'i' && l[2] == 'd' && l[3] == ':'
}

pub open spec fn uid_fields(l: Seq<char>) -> Seq<Seq<char>> {
    fields(l.subrange(4, l.len() as int))
}

/// Decided by the first `Uid:` line that has at least two fields: whether its second field
/// (the effective uid) reads as 0.
pub open spec fn euid_root_in(ls: Seq<Seq<char>>) -> bool
    decreases ls.len(),
{
    if ls.len() == 0 {
        false
    } else {
        let l = ls[0];
        if is_uid_line(l) && uid_fields(l).len() >= 2 {
            spec_parse_u32(uid_fields(l)[1]) == Some(0u32)
        } else {
            euid_root_in(ls.drop_first())
        }
    }
}

/// Whether the text of a `/proc/<pid>/status` file reports effective uid 0.
pub open spec fn spec_status_euid_is_root(s: Seq<char>) -> bool {
    euid_root_in(split_lines(s))
}

/// Whether line `l` decides the effective uid: a `Uid:` line with at least two fields.
pub open spec fn decides_euid(l: Seq<char>) -> bool {
    is_uid_line(l) && uid_fields(l).len() >= 2
}

/// The answer is read from the first `Uid:` line with at least two fields, and from its
/// second field alone (real, effective, saved, filesystem: the effective uid): it is
/// root exactly when that field reads as 0, whatever the other fields and the lines
/// after it say.
pub proof fn lemma_root_is_the_effective_uid(s: Seq<char>, before: Seq<Seq<char>>, l: Seq<char>, after: Seq<Seq<char>>)
    requires
        split_lines(s) == before.push(l) + after,
        forall|i: int| 0 <= i < before.len() ==> !decides_euid(#[trigger] before[i]),
        decides_euid(l),
    ensures
        spec_status_euid_is_root(s) == (spec_parse_u32(uid_fields(l)[1]) == Some(0u32)),
{
    lemma_euid_root_in_first_deciding(before, l, after);
}

/// A status with no `Uid:` line of at least two fields is not root.
pub proof fn lemma_no_uid_line_is_not_root(s: Seq<char>)
    requires
        forall|i: int| 0 <= i < split_lines(s).len() ==> !decides_euid(#[trigger] split_lines(s)[i]),
    ensures
        !spec_status_euid_is_root(s),
{
    lemma_euid_root_in_none(split_lines(s));
}

proof fn lemma_euid_root_in_none(ls: Seq<Seq<char>>)
    requires
        forall|i: int| 0 <= i < ls.len() ==> !decides_euid(#[trigger] ls[i]),
    ensures
        !euid_root_in(ls),
    decreases ls.len(),
{
    if ls.len() > 0 {
        assert(!decides_euid(ls[0]));
        let t = ls.drop_first();
        assert forall|i: int| 0 <= i < t.len() implies !decides_euid(#[trigger] t[i]) by {
            assert(t[i] == ls[i + 1]);
        }
        lemma_euid_root_in_none(t);
    }
}

proof fn lemma_euid_root_in_first_deciding(before: Seq<Seq<char>>, l: Seq<char>, after: Seq<Seq<char>>)
    requires
        forall|i: int| 0 <= i < before.len() ==> !decides_euid(#[trigger] before[i]),
        decides_euid(l),
    ensures
        euid_root_in(before.push(l) + after) == (spec_parse_u32(uid_fields(l)[1]) == Some(0u32)),
    decreases before.len(),
{
    let ls = before.push(l) + after;
    if before.len() == 0 {
        assert(ls[0] == l);
    } else {
        assert(ls[0] == before[0]);
        assert(!decides_euid(before[0]));
        let b = before.drop_first();
        assert(ls.drop_first() =~= b.push(l) + after);
        assert forall|i: int| 0 <= i < b.len() implies !decides_euid(#[trigger] b[i]) by {
            assert(b[i] == before[i + 1]);
        }
        lemma_euid_root_in_first_deciding(b, l, after);
    }
}

/// Whether the text of a `/proc/<pid>/status` file reports effective uid 0 (root).
/// Lines are cut at `\n`; a `\r` before it is whitespace to the field split, so lines
/// ending in `\r\n` read as `str::lines` gives them.
pub fn status_euid_is_root(status: &str) -> (r: bool)
    ensures
        r == spec_status_euid_is_root(status@),
{
    let c = chars_of(status);
    let ls = lines_of(&c);
    let ghost lv = ls@.map_values(|f: Vec<char>| f@);
    let mut i: usize = 0;
    assert(lv.skip(0) =~= lv);
    while i < ls.len()
        invariant
            lv == ls@.map_values(|f: Vec<char>| f@),
            lv == split_lines(status@),
            i <= ls.len(),
            euid_root_in(lv) == euid_root_in(lv.skip(i as int)),
        decreases ls.len() - i,
    {
        let l = &ls[i];
        assert(lv.skip(i as int)[0] == l@);
        assert(lv.skip(i as int).drop_first() =~= lv.skip(i + 1));
        if l.len() >= 4 && l[0] == 'U' && l[1] == 'i' && l[2] == 'd' && l[3] == ':' {
            let mut rest: Vec<char> = Vec::new();
            let mut k: usize = 4;
            while k < l.len()
                invariant
                    4 <= k <= l.len(),
                    rest@ == l@.subrange(4, k as int),
                decreases l.len() - k,
            {
                rest.push(l[k]);
                k = k + 1;
                assert(rest@ =~= l@.subrange(4, k as int));
            }
            let f = split_fields(&rest);
            if f.len() >= 2 {
                assert(f@.map_values(|x: Vec<char>| x@)[1] == f@[1]@);
                return match parse_u32(&f[1]) {
                    Some(v) => v == 0,
                    None => false,
                };
            }
        }
        i = i + 1;
    }
    assert(lv.skip(i as int).len() == 0);
    false
}

// ---------------------------------------------------------------------------
// /proc/<pid>/cmdline
// ---------------------------------------------------------------------------

/// The maximal runs of non-zero bytes of `b`.
pub open spec fn byte_parts(b: Seq<u8>) -> Seq<Seq<u8>>
    decreases b.len(),
{
    if b.len() == 0 {
        seq![]
    } else {
        let init = b.drop_last();
        let c = b.last();
        let f = byte_parts(init);
        if c == 0 {
            f
        } else if init.len() > 0 && init.last() != 0 {
            f.update(f.len() - 1, f.last().push(c))
        } else {
            f.push(seq![c])
        }
    }
}

proof fn lemma_byte_parts_nonempty(b: Seq<u8>)
    requires
        b.len() > 0,
        b.last() != 0,
    ensures
        byte_parts(b).len() > 0,
    decreases b.len(),
{
    let init = b.drop_last();
    if init.len() > 0 && init.last() != 0 {
        lemma_byte_parts_nonempty(init);
    }
}

/// The parts joined with single spaces.
pub open spec fn join_spaced(parts: Seq<Seq<u8>>) -> Seq<u8>
    decreases parts.len(),
{
    if parts.len() == 0 {
        seq![]
    } else if parts.len() == 1 {
        parts[0]
    } else {
        join_spaced(parts.drop_last()) + seq![32u8] + parts.last()
    }
}

fn split_parts(b: &[u8]) -> (r: Vec<Vec<u8>>)
    ensures
        r@.map_values(|f: Vec<u8>| f@) == byte_parts(b@),
{
    let mut out: Vec<Vec<u8>> = Vec::new();
    let mut i: usize = 0;
    while i < b.len()
        invariant
            i <= b.len(),
            out@.map_values(|f: Vec<u8>| f@) == byte_parts(b@.take(i as int)),
        decreases b.len() - i,
    {
        let c = b[i];
        let ghost pre = b@.take(i as int);
        let ghost post = b@.take(i as int + 1);
        assert(post.drop_last() =~= pre);
        assert(post.last() == c);
        if c == 0 {
        } else if i > 0 && b[i - 1] != 0 {
            proof {
                assert(pre.last() == b@[i - 1]);
                lemma_byte_parts_nonempty(pre);
            }
            let mut last = out.pop().unwrap();
            last.push(c);
            out.push(last);
            proof {
                let f = byte_parts(pre);
                assert(out@.map_values(|f: Vec<u8>| f@) =~= f.update(f.len() - 1, f.last().push(c)));
            }
        } else {
            let mut one: Vec<u8> = Vec::new();
            one.push(c);
            out.push(one);
            proof {
                assert(i > 0 ==> pre.last() == b@[i - 1]);
                assert(out@.map_values(|f: Vec<u8>| f@) =~= byte_parts(pre).push(seq![c]));
            }
        }
        i = i + 1;
    }
    assert(b@.take(b.len() as int) =~= b@);
    out
}

/// The argument vector in the bytes of a `/proc/<pid>/cmdline` file: the non-empty
/// NUL-separated pieces joined by spaces, or `None` when there is none. The bytes are
/// returned as they are; a space never falls inside a UTF-8 sequence, so decoding the
/// joined bytes lossily equals joining the lossily decoded pieces.
pub fn join_cmdline(bytes: &[u8]) -> (r: Option<Vec<u8>>)
    ensures
        match r {
            Some(v) => byte_parts(bytes@).len() > 0 && v@ == join_spaced(byte_parts(bytes@)),
            None => byte_parts(bytes@).len() == 0,
        },
{
    let parts = split_parts(bytes);
    let ghost pv = parts@.map_values(|f: Vec<u8>| f@);
    if parts.len() == 0 {
        return None;
    }
    let mut out: Vec<u8> = Vec::new();
    let mut i: usize = 0;
    while i < parts.len()
        invariant
            pv == parts@.map_values(|f: Vec<u8>| f@),
            pv == byte_parts(bytes@),
            parts.len() > 0,
            i <= parts.len(),
            out@ == join_spaced(pv.take(i as int)),
        decreases parts.len() - i,
    {
        let p = &parts[i];
        assert(pv[i as int] == p@);
        let ghost before = out@;
        if i > 0 {
            out.push(32u8);
        }
        let mut k: usize = 0;
        while k < p.len()
            invariant
                k <= p.len(),
                out@ == (if i > 0 { before + seq![32u8] } else { before }) + p@.take(k as int),
            decreases p.len() - k,
        {
            out.push(p[k]);
            k = k + 1;
            assert(out@ =~= (if i > 0 { before + seq![32u8] } else { before }) + p@.take(k as int));
        }
        proof {
            let t = pv.take(i + 1);
            assert(t.drop_last() =~= pv.take(i as int));
            assert(t.last() == p@);
            assert(p@.take(p@.len() as int) =~= p@);
            if i == 0 {
                assert(before =~= seq![]);
                assert(out@ =~= p@);
            }
        }
        i = i + 1;
    }
    assert(pv.take(parts.len() as int) =~= pv);
    Some(out)
}

// ---------------------------------------------------------------------------
// Decisions on what the files report
// ---------------------------------------------------------------------------

/// One step of finding out whether the terminal waits for input.
pub enum IdleStep {
    /// The answer is known.
    Done(bool),
    /// Read `/proc/<pid>/comm` of this foreground process group leader next.
    ReadComm(i32),
    /// Read `/proc/<pid>/stat` of this foreground leader next.
    ReadStat(i32),
}

/// Whether the terminal waits for user input, given what the shell's stat file gave
/// (`None` when it could not be read or parsed), the comm text of the foreground leader
/// and that leader's own stat. A nested shell at its own prompt counts as idle.
pub open spec fn spec_terminal_idle(
    shell_stat: Option<(i32, i32)>,
    fg_comm: Option<Seq<char>>,
    fg_stat: Option<(i32, i32)>,
) -> bool {
    match shell_stat {
        None => true,
        Some((pgrp, tpgid)) => if pgrp == tpgid {
            true
        } else if tpgid <= 0 {
            false
        } else {
            match fg_comm {
                None => false,
                Some(comm) => if !shell_names().contains(spec_comm_name(comm)) {
                    false
                } else {
                    match fg_stat {
                        Some((fg_pgrp, fg_tpgid)) => fg_pgrp == fg_tpgid,
                        None => false,
                    }
                },
            }
        },
    }
}

/// First step: decides from the shell's own stat, or names the process to look at next.
pub fn idle_step_stat(shell_stat: Option<(i32, i32)>) -> (r: IdleStep)
    ensures
        match shell_stat {
            None => r == IdleStep::Done(true),
            Some((pgrp, tpgid)) => if pgrp == tpgid {
                r == IdleStep::Done(true)
            } else if tpgid <= 0 {
                r == IdleStep::Done(false)
            } else {
                r == IdleStep::ReadComm(tpgid)
            },
        },
        forall|c: Option<Seq<char>>, f: Option<(i32, i32)>|
            r matches IdleStep::Done(b) ==> b == #[trigger] spec_terminal_idle(shell_stat, c, f),
{
    match shell_stat {
        None => IdleStep::Done(true),
        Some((pgrp, tpgid)) => {
            if pgrp == tpgid {
                IdleStep::Done(true)
            } else if tpgid <= 0 {
                IdleStep::Done(false)
            } else {
                IdleStep::ReadComm(tpgid)
            }
        },
    }
}

/// Second step: with the comm text of foreground leader `tpgid` (`None` when unreadable),
/// either answers `false` or asks for that leader's stat, when it is a shell.
pub fn idle_step_comm(tpgid: i32, fg_comm: Option<&str>) -> (r: IdleStep)
    ensures
        match fg_comm {
            None => r == IdleStep::Done(false),
            Some(c) => if shell_names().contains(spec_comm_name(c@)) {
                r == IdleStep::ReadStat(tpgid)
            } else {
                r == IdleStep::Done(false)
            },
        },
{
    match fg_comm {
        None => IdleStep::Done(false),
        Some(c) => {
            let name = comm_name(c);
            if is_shell(name.as_str()) {
                IdleStep::ReadStat(tpgid)
            } else {
                IdleStep::Done(false)
            }
        },
    }
}

/// Last step: a nested shell is idle when it is itself the foreground process group.
pub fn idle_step_fg_stat(fg_stat: Option<(i32, i32)>) -> (r: bool)
    ensures
        r == match fg_stat {
            Some((fg_pgrp, fg_tpgid)) => fg_pgrp == fg_tpgid,
            None => false,
        },
{
    match fg_stat {
        Some((fg_pgrp, fg_tpgid)) => fg_pgrp == fg_tpgid,
        None => false,
    }
}

/// The foreground process to look at for the running command: the terminal's foreground
/// group leader, when it differs from the shell's own group and is a valid pid.
pub fn foreground_target(stat: Option<(i32, i32)>) -> (r: Option<i32>)
    ensures
        r == match stat {
            Some((pgrp, tpgid)) => if tpgid > 0 && pgrp != tpgid {
                Some(tpgid)
            } else {
                None
            },
            None => None,
        },
{
    match stat {
        Some((pgrp, tpgid)) => {
            if tpgid > 0 && pgrp != tpgid {
                Some(tpgid)
            } else {
                None
            }
        },
        None => None,
    }
}

/// One step of finding the command a terminal runs in the foreground, once the comm
/// text of its foreground group leader was read.
pub enum ForegroundStep {
    /// No command can be told (the comm file could not be read).
    Stop,
    /// The leader is a nested shell: look at its own foreground group next.
    Descend(i32),
    /// The leader runs a command: read its command line; this is its process name.
    ReadCmdline(i32, String),
}

/// The step after reading the comm text of foreground leader `target` (`None` when it
/// could not be read): a shell is descended into, anything else is the command.
pub fn foreground_step(target: i32, comm: Option<&str>) -> (r: ForegroundStep)
    ensures
        match comm {
            None => r is Stop,
            Some(c) => if shell_names().contains(spec_comm_name(c@)) {
                r == ForegroundStep::Descend(target)
            } else {
                r matches ForegroundStep::ReadCmdline(t, name) && t == target && name@ == spec_comm_name(c@)
            },
        },
{
    match comm {
        None => ForegroundStep::Stop,
        Some(c) => {
            let name = comm_name(c);
            if is_shell(name.as_str()) {
                ForegroundStep::Descend(target)
            } else {
                ForegroundStep::ReadCmdline(target, name)
            }
        },
    }
}

/// How the foreground command is shown.
pub enum CommandText {
    /// Its arguments joined by spaces.
    Args(Vec<u8>),
    /// Its process name, when its command line holds no argument.
    Name(String),
}

/// The text shown for a foreground command, from the bytes of its command line file
/// (`None` when it could not be read, and then nothing is shown) and its process name.
pub fn command_text(cmdline: Option<&[u8]>, name: String) -> (r: Option<CommandText>)
    ensures
        match cmdline {
            None => r is None,
            Some(b) => if byte_parts(b@).len() > 0 {
                r matches Some(CommandText::Args(v)) && v@ == join_spaced(byte_parts(b@))
            } else {
                r == Some(CommandText::Name(name))
            },
        },
{
    match cmdline {
        None => None,
        Some(b) => match join_cmdline(b) {
            Some(v) => Some(CommandText::Args(v)),
            None => Some(CommandText::Name(name)),
        },
    }
}

/// The process whose status tells whether the foreground runs as root: the terminal's
/// foreground group leader, when it is a valid pid.
pub fn elevated_target(stat: Option<(i32, i32)>) -> (r: Option<i32>)
    ensures
        r == match stat {
            Some((_pgrp, tpgid)) => if tpgid > 0 {
                Some(tpgid)
            } else {
                None
            },
            None => None,
        },
{
    match stat {
        Some((_pgrp, tpgid)) => {
            if tpgid > 0 {
                Some(tpgid)
            } else {
                None
            }
        },
        None => None,
    }
}

/// PID to use for CWD tracking, given what the shell's stat file gave: the terminal's
/// foreground process group leader when it is known and positive, so that a nested shell
/// reports its own directory; otherwise the shell itself.
pub fn cwd_tracking_pid(shell_pid: i32, stat: Option<(i32, i32)>) -> (r: i32)
    ensures
        r == match stat {
            Some((_pgrp, tpgid)) => if tpgid > 0 {
                tpgid
            } else {
                shell_pid
            },
            None => shell_pid,
        },
{
    if let Some((_pgrp, tpgid)) = stat {
        if tpgid > 0 {
            return tpgid;
        }
    }
    shell_pid
}

// ---------------------------------------------------------------------------
// Text produced for the user and the shell
// ---------------------------------------------------------------------------

pub open spec fn digit_char(d: int) -> char {
    (48 + d) as char
}

/// The decimal digits of `n`.
pub open spec fn decimal(n: nat) -> Seq<char>
    decreases n,
{
    if n < 10 {
        seq![digit_char(n as int)]
    } else {
        decimal(n / 10).push(digit_char((n % 10) as int))
    }
}

fn digit_str(d: u64) -> (r: &'static str)
    requires
        d < 10,
    ensures
        r@ == seq![digit_char(d as int)],
{
    proof {
        reveal_strlit("0");
        reveal_strlit("1");
        reveal_strlit("2");
        reveal_strlit("3");
        reveal_strlit("4");
        reveal_strlit("5");
        reveal_strlit("6");
        reveal_strlit("7");
        reveal_strlit("8");
        reveal_strlit("9");
    }
    let r = match d {
        0 => "0",
        1 => "1",
        2 => "2",
        3 => "3",
        4 => "4",
        5 => "5",
        6 => "6",
        7 => "7",
        8 => "8",
        _ => "9",
    };
    assert(r@ =~= seq![digit_char(d as int)]);
    r
}

/// Appends the decimal digits of `n` to `out`.
pub(crate) fn append_decimal(out: &mut String, n: u64)
    ensures
        final(out)@ == old(out)@ + decimal(n as nat),
    decreases n,
{
    if n >= 10 {
        append_decimal(out, n / 10);
    }
    out.append(digit_str(n % 10));
    assert(old(out)@ + decimal(n as nat) =~= final(out)@) by {
        if n >= 10 {
            assert(decimal(n as nat) == decimal((n / 10) as nat).push(digit_char((n % 10) as int)));
        }
    };
}

/// Compact relative duration: seconds under a minute, minutes under an hour,
/// otherwise hours and the minutes past the hour.
pub open spec fn spec_format_duration_compact(secs: nat) -> Seq<char> {
    if secs < 60 {
        decimal(secs) + seq!['s']
    } else if secs < 3600 {
        decimal(secs / 60) + seq!['m']
    } else {
        decimal(secs / 3600) + seq!['h', ' '] + decimal((secs / 60) % 60) + seq!['m']
    }
}

/// Compact relative-duration format of a whole number of seconds: `45s`, `3m`, `1h 12m`.
pub fn format_duration_compact(secs: u64) -> (r: String)
    ensures
        r@ == spec_format_duration_compact(secs as nat),
{
    proof {
        reveal_strlit("s");
        reveal_strlit("m");
        reveal_strlit("h ");
    }
    let mut out = String::new();
    if secs < 60 {
        append_decimal(&mut out, secs);
        out.append("s");
    } else if secs < 3600 {
        append_decimal(&mut out, secs / 60);
        out.append("m");
    } else {
        append_decimal(&mut out, secs / 3600);
        out.append("h ");
        append_decimal(&mut out, (secs / 60) % 60);
        out.append("m");
    }
    assert(out@ =~= spec_format_duration_compact(secs as nat));
    out
}

/// `p` with every `'` written as `'\''`, so that it can stand between single quotes.
pub open spec fn single_quote_body(p: Seq<char>) -> Seq<char>
    decreases p.len(),
{
    if p.len() == 0 {
        seq![]
    } else {
        single_quote_body(p.drop_last()) + if p.last() == '\'' {
            seq!['\'', '\\', '\'', '\'']
        } else {
            seq![p.last()]
        }
    }
}

/// The line fed to the shell to change to `path`: `cd -- '<path>'` and a newline.
pub open spec fn spec_cd_command(path: Seq<char>) -> Seq<char> {
    seq!['c', 'd', ' ', '-', '-', ' ', '\''] + single_quote_body(path) + seq!['\'', '\n']
}

/// Shell input that changes the working directory to `path`, quoted so that any
/// character of the path reaches `cd` unchanged.
pub fn cd_command(path: &str) -> (r: String)
    ensures
        r@ == spec_cd_command(path@),
{
    proof {
        reveal_strlit("cd -- '");
        reveal_strlit("'\\''");
        reveal_strlit("'\n");
    }
    let n = path.unicode_len();
    let mut out = String::from_str("cd -- '");
    let ghost head = seq!['c', 'd', ' ', '-', '-', ' ', '\''];
    assert(out@ =~= head);
    let mut i: usize = 0;
    while i < n
        invariant
            n == path@.len(),
            i <= n,
            out@ == head + single_quote_body(path@.take(i as int)),
            head == seq!['c', 'd', ' ', '-', '-', ' ', '\''],
        decreases n - i,
    {
        let c = path.get_char(i);
        let ghost pre = path@.take(i as int);
        let ghost post = path@.take(i as int + 1);
        assert(post.drop_last() =~= pre);
        assert(post.last() == c);
        if c == '\'' {
            out.append("'\\''");
            proof {
                reveal_strlit("'\\''");
            }
            assert("'\\''"@ =~= seq!['\'', '\\', '\'', '\'']);
            assert(out@ =~= head + single_quote_body(post));
        } else {
            let piece = path.substring_char(i, i + 1);
            out.append(piece);
            assert(piece@ =~= seq![c]);
            assert(out@ =~= head + single_quote_body(post));
        }
        i = i + 1;
    }
    assert(path@.take(n as int) =~= path@);
    out.append("'\n");
    assert(out@ =~= spec_cd_command(path@));
    out
}

} // verus!
