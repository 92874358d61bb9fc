//! Text helpers for the front end: guest paths, durations, `virsh dominfo`.

use vstd::prelude::*;

verus! {

/// What a character becomes in a path sent to the guest agent.
pub open spec fn escaped_char(c: char) -> Seq<char> {
    if c == '\\' { seq!['\\', '\\'] } else { seq![c] }
}

/// `s` with every backslash doubled.
pub open spec fn doubled_backslashes(s: Seq<char>) -> Seq<char>
    decreases s.len(),
{
    if s.len() == 0 {
        seq![]
    } else {
        doubled_backslashes(s.drop_last()) + escaped_char(s.last())
    }
}

/// Doubles each backslash, as the agent's JSON path argument expects of
/// Windows paths.
pub fn normalize_windows_path(path: &str) -> (r: String)
    ensures
        r@ == doubled_backslashes(path@),
{
    let n = path.unicode_len();
    let mut out = String::new();
    let mut i: usize = 0;
    while i < n
        invariant
            n == path@.len(),
            i <= n,
            out@ == doubled_backslashes(path@.subrange(0, i as int)),
        decreases n - i,
    {
        let c = path.get_char(i);
        let one = path.substring_char(i, i + 1);
        assert(path@.subrange(0, i + 1).drop_last() =~= path@.subrange(0, i as int));
        if c == '\\' {
            proof {
                reveal_strlit("\\\\");
            }
            out.append("\\\\");
        } else {
            assert(one@ =~= seq![c]);
            out.append(one);
        }
        i = i + 1;
    }
    assert(path@.subrange(0, n as int) =~= path@);
    out
}

pub open spec fn digit_char(d: nat) -> char {
    if d == 0 { '0' } else if d == 1 { '1' } else if d == 2 { '2' } else if d == 3 { '3' }
    else if d == 4 { '4' } else if d == 5 { '5' } else if d == 6 { '6' } else if d == 7 { '7' }
    else if d == 8 { '8' } else { '9' }
}

/// Decimal digits of `n`, without leading zeros.
pub open spec fn decimal(n: nat) -> Seq<char>
    decreases n,
{
    if n < 10 {
        seq![digit_char(n)]
    } else {
        decimal(n / 10) + seq![digit_char(n % 10)]
    }
}

fn digit_str(d: u64) -> (r: &'static str)
    requires
        d < 10,
    ensures
        r@ == seq![digit_char(d as nat)],
{
    proof {
        reveal_strlit("0");
        reveal_strlit("1");
        reveal_strlit("2");
        reveal_strlit("3");
        reveal_strlit("4");
        reveal_strlit("5");
        reveal_strlit("6");
        reveal_strlit("7");
        reveal_strlit("8");
        reveal_strlit("9");
    }
    if d == 0 { "0" } else if d == 1 { "1" } else if d == 2 { "2" } else if d == 3 { "3" }
    else if d == 4 { "4" } else if d == 5 { "5" } else if d == 6 { "6" } else if d == 7 { "7" }
    else if d == 8 { "8" } else { "9" }
}

/// `n` in decimal.
pub fn decimal_string(n: u64) -> (r: String)
    ensures
        r@ == decimal(n as nat),
    decreases n,
{
    if n < 10 {
        String::from_str(digit_str(n))
    } else {
        let mut s = decimal_string(n / 10);
        s.append(digit_str(n % 10));
        s
    }
}

/// `"<n><unit>"` as a one-element list when `n` is not zero, else nothing.
pub open spec fn unit_part(n: nat, unit: Seq<char>) -> Seq<Seq<char>> {
    if n > 0 { seq![decimal(n) + unit] } else { seq![] }
}

/// Days, hours, minutes and seconds of `secs`, leaving out zero units.
pub open spec fn dhms_parts(secs: nat) -> Seq<Seq<char>> {
    unit_part(secs / 86400, "d"@) + unit_part(secs % 86400 / 3600, "h"@)
        + unit_part(secs % 86400 % 3600 / 60, "m"@) + unit_part(secs % 86400 % 3600 % 60, "s"@)
}

/// The parts separated by single spaces.
pub open spec fn join_spaces(parts: Seq<Seq<char>>) -> Seq<char>
    decreases parts.len(),
{
    if parts.len() == 0 {
        seq![]
    } else if parts.len() == 1 {
        parts[0]
    } else {
        join_spaces(parts.drop_last()) + " "@ + parts.last()
    }
}

/// `"1d 2h 3m 4s"`-style text of a duration; `"0s"` for zero.
pub open spec fn dhms(secs: nat) -> Seq<char> {
    if secs == 0 { "0s"@ } else { join_spaces(dhms_parts(secs)) }
}

fn push_part(parts: &mut Vec<String>, n: u64, unit: &str)
    ensures
        final(parts)@.map_values(|s: String| s@) == old(parts)@.map_values(|s: String| s@)
            + unit_part(n as nat, unit@),
{
    if n > 0 {
        let mut s = decimal_string(n);
        s.append(unit);
        parts.push(s);
        assert(final(parts)@.map_values(|s: String| s@) =~= old(parts)@.map_values(|s: String| s@)
            + unit_part(n as nat, unit@));
    } else {
        assert(old(parts)@.map_values(|s: String| s@) + unit_part(n as nat, unit@)
            =~= old(parts)@.map_values(|s: String| s@));
    }
}

/// Formats a duration as days, hours, minutes and seconds, leaving out zero
/// units (`"1d 2h 3m 4s"`, `"1h 1s"`); zero is `"0s"`.
pub fn format_seconds_dhms(secs: u64) -> (r: String)
    ensures
        r@ == dhms(secs as nat),
{
    if secs == 0 {
        return String::from_str("0s");
    }
    let days = secs / 86_400;
    let rest = secs % 86_400;
    let hours = rest / 3600;
    let rest = rest % 3600;
    let mins = rest / 60;
    let s = rest % 60;
    let mut parts: Vec<String> = Vec::new();
    push_part(&mut parts, days, "d");
    push_part(&mut parts, hours, "h");
    push_part(&mut parts, mins, "m");
    push_part(&mut parts, s, "s");
    let ghost model = parts@.map_values(|p: String| p@);
    assert(model =~= dhms_parts(secs as nat));
    let mut out = String::new();
    let mut i: usize = 0;
    while i < parts.len()
        invariant
            i <= parts@.len(),
            model == parts@.map_values(|p: String| p@),
            out@ == join_spaces(model.subrange(0, i as int)),
        decreases parts.len() - i,
    {
        assert(model.subrange(0, i + 1).drop_last() =~= model.subrange(0, i as int));
        if i > 0 {
            out.append(" ");
        }
        out.append(parts[i].as_str());
        i = i + 1;
    }
    assert(model.subrange(0, parts@.len() as int) =~= model);
    out
}

/// Text with leading and trailing white space removed, as `str::trim` does.
pub uninterp spec fn trimmed(s: Seq<char>) -> Seq<char>;

/// The lines of a text, as `str::lines` splits them.
pub uninterp spec fn text_lines(s: Seq<char>) -> Seq<Seq<char>>;

/// The first white-space separated word of a text, as `str::split_whitespace` finds it.
pub uninterp spec fn first_word(s: Seq<char>) -> Option<Seq<char>>;

/// The final component of a path, as `Path::file_name` gives it.
pub uninterp spec fn path_file_name(s: Seq<char>) -> Option<Seq<char>>;

/// Relies on `str::trim`: the text without leading and trailing white space.
#[verifier::external_body]
fn trim_text(s: &str) -> (r: &str)
    ensures
        r@ == trimmed(s@),
{
    s.trim()
}

/// Relies on `str::lines`: the lines of the text, without their line ends.
#[verifier::external_body]
fn lines_of(s: &str) -> (r: Vec<String>)
    ensures
        r@.map_values(|l: String| l@) == text_lines(s@),
{
    s.lines().map(|l| l.to_string()).collect()
}

/// Relies on `str::split_whitespace`: its first word, if any.
#[verifier::external_body]
fn first_word_of(s: &str) -> (r: Option<&str>)
    ensures
        match r {
            Some(w) => first_word(s@) == Some(w@),
            None => first_word(s@) is None,
        },
{
    s.split_whitespace().next()
}

/// Relies on `Path::file_name`: the last component of the path, if it has one.
#[verifier::external_body]
fn file_name_of(s: &str) -> (r: Option<String>)
    ensures
        match r {
            Some(n) => path_file_name(s@) == Some(n@),
            None => path_file_name(s@) is None,
        },
{
    std::path::Path::new(s).file_name().map(|n| n.to_string_lossy().into_owned())
}

/// The local file to edit: `local`, or when it is blank the file name of
/// the guest path `remote` (empty when that has none).
pub fn resolve_local_path(local: &str, remote: &str) -> (r: String)
    ensures
        r@ == if trimmed(local@).len() == 0 {
            match path_file_name(remote@) {
                Some(n) => n,
                None => seq![],
            }
        } else {
            local@
        },
{
    if trim_text(local).unicode_len() == 0 {
        match file_name_of(remote) {
            Some(n) => n,
            None => String::new(),
        }
    } else {
        local.to_string()
    }
}

/// Whether `s` begins with `p`.
pub open spec fn has_prefix(s: Seq<char>, p: Seq<char>) -> bool {
    p.len() <= s.len() && s.subrange(0, p.len() as int) == p
}

fn starts_with(s: &str, p: &str) -> (r: bool)
    ensures
        r == has_prefix(s@, p@),
{
    let n = p.unicode_len();
    if n > s.unicode_len() {
        return false;
    }
    let mut i: usize = 0;
    while i < n
        invariant
            n == p@.len(),
            n <= s@.len(),
            i <= n,
            s@.subrange(0, i as int) == p@.subrange(0, i as int),
        decreases n - i,
    {
        if s.get_char(i) != p.get_char(i) {
            assert(s@.subrange(0, n as int)[i as int] != p@[i as int]);
            return false;
        }
        assert(s@.subrange(0, i + 1) =~= s@.subrange(0, i as int).push(s@[i as int]));
        assert(p@.subrange(0, i + 1) =~= p@.subrange(0, i as int).push(p@[i as int]));
        i = i + 1;
    }
    assert(p@.subrange(0, n as int) =~= p@);
    true
}

pub open spec fn is_digit(c: char) -> bool {
    '0' <= c && c <= '9'
}

pub open spec fn all_digits(d: Seq<char>) -> bool {
    forall|i: int| 0 <= i < d.len() ==> is_digit(#[trigger] d[i])
}

/// Value of a string of decimal digits.
pub open spec fn digits_value(s: Seq<char>) -> nat
    decreases s.len(),
{
    if s.len() == 0 {
        0
    } else {
        digits_value(s.drop_last()) * 10 + (s.last() as nat - '0' as nat) as nat
    }
}

/// An unsigned decimal number with an optional `+`, as `u64`'s `FromStr`
/// reads it; `None` for other text and for values over `u64::MAX`.
pub open spec fn parsed_u64(s: Seq<char>) -> Option<u64> {
    let d = if s.len() > 0 && s[0] == '+' { s.drop_first() } else { s };
    if d.len() > 0 && all_digits(d) && digits_value(d) <= u64::MAX {
        Some(digits_value(d) as u64)
    } else {
        None
    }
}

/// Reads a `u64` (see `parsed_u64`).
pub fn parse_u64(s: &str) -> (r: Option<u64>)
    ensures
        r == parsed_u64(s@),
{
    let n = s.unicode_len();
    let start: usize = if n > 0 && s.get_char(0) == '+' { 1 } else { 0 };
    let ghost d = if s@.len() > 0 && s@[0] == '+' { s@.drop_first() } else { s@ };
    assert(d =~= s@.subrange(start as int, n as int));
    if start == n {
        return None;
    }
    let mut v: u64 = 0;
    let mut i: usize = start;
    while i < n
        invariant
            n == s@.len(),
            start <= i <= n,
            d == s@.subrange(start as int, n as int),
            d == (if s@.len() > 0 && s@[0] == '+' { s@.drop_first() } else { s@ }),
            v as nat == digits_value(s@.subrange(start as int, i as int)),
            forall|j: int| start <= j < i ==> is_digit(#[trigger] s@[j]),
        decreases n - i,
    {
        let c = s.get_char(i);
        let ghost pre = s@.subrange(start as int, i + 1);
        assert(pre.drop_last() =~= s@.subrange(start as int, i as int));
        if !('0' <= c && c <= '9') {
            assert(d[i - start] == c);
            assert(!is_digit(d[i - start]));
            assert(!all_digits(d));
            proof {
                lemma_not_parsed(s@, d);
            }
            return None;
        }
        let digit = (c as u32 - '0' as u32) as u64;
        assert(digits_value(pre) == v as nat * 10 + digit as nat);
        if v > (u64::MAX - digit) / 10 {
            proof {
                assert(v as nat * 10 + digit as nat > u64::MAX) by (nonlinear_arith)
                    requires v > (u64::MAX - digit) / 10, digit <= 9;
                lemma_digits_grow(s@.subrange(start as int, n as int), (i - start + 1) as int);
                assert(s@.subrange(start as int, n as int).subrange(0, i - start + 1) =~= pre);
                assert(digits_value(d) > u64::MAX);
                lemma_not_parsed(s@, d);
            }
            return None;
        }
        v = v * 10 + digit;
        i = i + 1;
    }
    assert(s@.subrange(start as int, n as int) == d);
    Some(v)
}

proof fn lemma_not_parsed(s: Seq<char>, d: Seq<char>)
    requires
        d == (if s.len() > 0 && s[0] == '+' { s.drop_first() } else { s }),
        !all_digits(d) || digits_value(d) > u64::MAX,
    ensures
        parsed_u64(s) is None,
{
}

proof fn lemma_digits_grow(d: Seq<char>, k: int)
    requires
        0 < k <= d.len(),
    ensures
        digits_value(d.subrange(0, k)) <= digits_value(d),
    decreases d.len() - k,
{
    if k < d.len() {
        lemma_digits_grow(d, k + 1);
        assert(d.subrange(0, k + 1).drop_last() =~= d.subrange(0, k));
    } else {
        assert(d.subrange(0, k) =~= d);
    }
}

/// Memory and CPU time figures read from `virsh dominfo` output. Memory
/// figures are as printed there (KiB on most hosts).
#[derive(Debug)]
pub struct DomInfo {
    pub max_memory_mb: Option<u64>,
    pub used_memory_mb: Option<u64>,
    pub cpu_time: Option<String>,
}

pub struct DomInfoModel {
    pub max_memory: Option<u64>,
    pub used_memory: Option<u64>,
    pub cpu_time: Option<Seq<char>>,
}

pub open spec fn dominfo_model(d: DomInfo) -> DomInfoModel {
    DomInfoModel {
        max_memory: d.max_memory_mb,
        used_memory: d.used_memory_mb,
        cpu_time: match d.cpu_time {
            Some(t) => Some(t@),
            None => None,
        },
    }
}

/// The number that leads what follows a memory label.
pub open spec fn memory_value(rest: Seq<char>) -> Option<u64> {
    match first_word(trimmed(rest)) {
        Some(w) => parsed_u64(w),
        None => None,
    }
}

/// The figures after reading one more line.
pub open spec fn dominfo_line(m: DomInfoModel, line: Seq<char>) -> DomInfoModel {
    let l = trimmed(line);
    if has_prefix(l, "Max memory:"@) {
        match memory_value(l.subrange("Max memory:"@.len() as int, l.len() as int)) {
            Some(n) => DomInfoModel { max_memory: Some(n), ..m },
            None => m,
        }
    } else if has_prefix(l, "Used memory:"@) {
        match memory_value(l.subrange("Used memory:"@.len() as int, l.len() as int)) {
            Some(n) => DomInfoModel { used_memory: Some(n), ..m },
            None => m,
        }
    } else if has_prefix(l, "CPU time:"@) {
        DomInfoModel { cpu_time: Some(trimmed(l.subrange("CPU time:"@.len() as int, l.len() as int))), ..m }
    } else {
        m
    }
}

/// The figures read from a sequence of lines; a later line wins.
pub open spec fn dominfo_lines(lines: Seq<Seq<char>>) -> DomInfoModel
    decreases lines.len(),
{
    if lines.len() == 0 {
        DomInfoModel { max_memory: None, used_memory: None, cpu_time: None }
    } else {
        dominfo_line(dominfo_lines(lines.drop_last()), lines.last())
    }
}

fn label_value(l: &str, label: &str) -> (r: Option<u64>)
    requires
        has_prefix(l@, label@),
    ensures
        r == memory_value(l@.subrange(label@.len() as int, l@.len() as int)),
{
    let rest = l.substring_char(label.unicode_len(), l.unicode_len());
    match first_word_of(trim_text(rest)) {
        Some(w) => parse_u64(w),
        None => None,
    }
}

/// Reads the `Max memory:`, `Used memory:` and `CPU time:` lines of
/// `virsh dominfo` output: the first number after each memory label, and
/// the rest of the CPU time line. Lines may be indented; a later line with
/// a readable value replaces an earlier one.
pub fn parse_dominfo(s: &str) -> (r: DomInfo)
    ensures
        dominfo_model(r) == dominfo_lines(text_lines(s@)),
{
    let lines = lines_of(s);
    let ghost ls = lines@.map_values(|l: String| l@);
    let mut info = DomInfo { max_memory_mb: None, used_memory_mb: None, cpu_time: None };
    let mut i: usize = 0;
    while i < lines.len()
        invariant
            i <= lines@.len(),
            ls == lines@.map_values(|l: String| l@),
            ls == text_lines(s@),
            dominfo_model(info) == dominfo_lines(ls.subrange(0, i as int)),
        decreases lines.len() - i,
    {
        assert(ls.subrange(0, i + 1).drop_last() =~= ls.subrange(0, i as int));
        let l = trim_text(lines[i].as_str());
        if starts_with(l, "Max memory:") {
            if let Some(n) = label_value(l, "Max memory:") {
                info.max_memory_mb = Some(n);
            }
        } else if starts_with(l, "Used memory:") {
            if let Some(n) = label_value(l, "Used memory:") {
                info.used_memory_mb = Some(n);
            }
        } else if starts_with(l, "CPU time:") {
            let rest = l.substring_char("CPU time:".unicode_len(), l.unicode_len());
            info.cpu_time = Some(trim_text(rest).to_string());
        }
        i = i + 1;
    }
    assert(ls.subrange(0, lines@.len() as int) =~= ls);
    info
}

/// `k` KiB in bytes, capped at `u64::MAX`.
pub open spec fn saturated_bytes(k: nat) -> nat {
    if k * 1024 <= u64::MAX { k * 1024 } else { u64::MAX as nat }
}

/// Index of the largest binary unit that `b` bytes reach (B, KiB, MiB, GiB, TiB).
pub open spec fn unit_of(b: nat) -> nat {
    if b < 1024 { 0 } else if b < 1048576 { 1 } else if b < 1073741824 { 2 }
    else if b < 1099511627776 { 3 } else { 4 }
}

pub open spec fn unit_name(u: nat) -> Seq<char> {
    if u == 0 { "B"@ } else if u == 1 { "KiB"@ } else if u == 2 { "MiB"@ } else if u == 3 { "GiB"@ }
    else { "TiB"@ }
}

/// `1024` to the power `e`, for `e` up to 3.
pub open spec fn kib_scale(e: nat) -> nat {
    if e == 0 { 1 } else if e == 1 { 1024 } else if e == 2 { 1048576 } else { 1073741824 }
}

/// `k / d` in tenths, rounded to the nearest, ties to the even tenth.
pub open spec fn rounded_tenths(k: nat, d: nat) -> nat
    recommends
        d > 0,
{
    let q = k * 10 / d;
    let r = k * 10 % d;
    if 2 * r > d || (2 * r == d && q % 2 == 1) { q + 1 } else { q }
}

/// Memory size text: whole bytes or KiB, or MiB and up with one decimal.
pub open spec fn memory_text(kib: Option<u64>) -> Seq<char> {
    match kib {
        None => "(unknown)"@,
        Some(k) => {
            let u = unit_of(saturated_bytes(k as nat));
            if u >= 2 {
                let t = rounded_tenths(k as nat, kib_scale((u - 1) as nat));
                decimal(t / 10) + "."@ + seq![digit_char(t % 10)] + " "@ + unit_name(u)
            } else {
                decimal(saturated_bytes(k as nat) / kib_scale(u)) + " "@ + unit_name(u)
            }
        },
    }
}

fn unit_str(u: u64) -> (r: &'static str)
    ensures
        r@ == unit_name(u as nat),
{
    if u == 0 { "B" } else if u == 1 { "KiB" } else if u == 2 { "MiB" } else if u == 3 { "GiB" } else { "TiB" }
}

/// Formats an optional size in KiB with binary units: `"512 KiB"`,
/// `"1.5 MiB"`, `"8.0 GiB"`; `"(unknown)"` for `None`. From MiB up the
/// figure has one decimal, rounded to the nearest with ties to even.
pub fn format_memory_kib(kib: Option<u64>) -> (r: String)
    ensures
        r@ == memory_text(kib),
{
    match kib {
        None => String::from_str("(unknown)"),
        Some(k) => {
            let bytes: u64 = if k <= u64::MAX / 1024 { k * 1024 } else { u64::MAX };
            let u: u64 = if bytes < 1024 { 0 } else if bytes < 1048576 { 1 } else if bytes < 1073741824 { 2 }
                else if bytes < 1099511627776 { 3 } else { 4 };
            if u >= 2 {
                let d: u128 = if u == 2 { 1024 } else if u == 3 { 1048576 } else { 1073741824 };
                let q: u128 = (k as u128) * 10 / d;
                let rem: u128 = (k as u128) * 10 % d;
                let t: u128 = if 2 * rem > d || (2 * rem == d && q % 2 == 1) { q + 1 } else { q };
                assert(t == rounded_tenths(k as nat, kib_scale((u - 1) as nat)));
                assert(t <= u64::MAX) by (nonlinear_arith)
                    requires
                        q == (k as int) * 10 / (d as int),
                        d >= 1024,
                        t <= q + 1,
                        k <= u64::MAX;
                let t64 = t as u64;
                let mut s = decimal_string(t64 / 10);
                s.append(".");
                s.append(digit_str(t64 % 10));
                s.append(" ");
                s.append(unit_str(u));
                s
            } else {
                let scale: u64 = if u == 0 { 1 } else { 1024 };
                let mut s = decimal_string(bytes / scale);
                s.append(" ");
                s.append(unit_str(u));
                s
            }
        },
    }
}

} // verus!
