//! Windows IP protocol policy (IPv6 preferred / IPv4 preferred / IPv6-only /
//! IPv4-only), set through `netsh` prefix policies and the adapter bindings
//! of the active wireless adapter:
//!
//! - `prefer_ipv6` : prefix policies `::/0`=40, `::ffff:0:0/96`=35
//! - `prefer_ipv4` : prefix policy `::ffff:0:0/96`=46 (IPv6 still reachable)
//! - `ipv6_only`   : unbind IPv4 (`ms_tcpip`) from the active wireless adapter
//! - `ipv4_only`   : unbind IPv6 (`ms_tcpip6`) from it
//! - `restore_dual`: bind both again and restore the IPv6-preferred policies
//!
//! This module reads the commands' output and decides what to run next; the
//! application runs the commands.

use vstd::prelude::*;

use crate::text::{
    char_views, chars_of, lines, lines_of, split_chars, split_on, starts_with, str_eq, string_of,
    trim_chars, trimmed, words, words_of,
};

verus! {

/// A decimal digit.
pub open spec fn is_digit(c: char) -> bool {
    48 <= (c as u32) <= 57
}

/// The value of a string of decimal digits.
pub open spec fn digits_value(s: Seq<char>) -> int
    decreases s.len(),
{
    if s.len() == 0 {
        0
    } else {
        digits_value(s.drop_last()) * 10 + ((s.last() as u32) - 48)
    }
}

/// Every character is a decimal digit.
pub open spec fn all_digits(s: Seq<char>) -> bool {
    forall|i: int| 0 <= i < s.len() ==> is_digit(#[trigger] s[i])
}

/// `s` as `i64::from_str` reads it: an optional `+` or `-`, then one or more
/// decimal digits, the value within `i64`; `None` otherwise.
pub open spec fn parse_i64(s: Seq<char>) -> Option<i64> {
    let neg = s.len() > 0 && s[0] == '-';
    let body = if s.len() > 0 && (s[0] == '-' || s[0] == '+') { s.drop_first() } else { s };
    if body.len() > 0 && all_digits(body) {
        let v = if neg { -digits_value(body) } else { digits_value(body) };
        if i64::MIN <= v <= i64::MAX {
            Some(v as i64)
        } else {
            None
        }
    } else {
        None
    }
}

proof fn lemma_digits_nonneg(s: Seq<char>)
    requires
        forall|i: int| 0 <= i < s.len() ==> is_digit(#[trigger] s[i]),
    ensures
        digits_value(s) >= 0,
    decreases s.len(),
{
    if s.len() > 0 {
        lemma_digits_nonneg(s.drop_last());
        assert(is_digit(s[s.len() - 1]));
    }
}

const I64_MAGNITUDE_MAX: u128 = 9223372036854775808;

/// Reads a decimal `i64` (see `parse_i64`).
pub fn parse_int(s: &Vec<char>) -> (r: Option<i64>)
    ensures
        r == parse_i64(s@),
{
    let n = s.len();
    let neg = n > 0 && s[0] == '-';
    let start: usize = if n > 0 && (s[0] == '-' || s[0] == '+') { 1 } else { 0 };
    let ghost body = if s@.len() > 0 && (s@[0] == '-' || s@[0] == '+') { s@.drop_first() } else { s@ };
    proof {
        assert(body =~= s@.subrange(start as int, n as int));
    }
    if start == n {
        return None;
    }
    let mut acc: u128 = 0;
    let mut big = false;
    let mut i: usize = start;
    while i < n
        invariant
            start <= i <= n,
            n == s@.len(),
            body == s@.subrange(start as int, n as int),
            body == (if s@.len() > 0 && (s@[0] == '-' || s@[0] == '+') { s@.drop_first() } else { s@ }),
            forall|j: int| start <= j < i ==> is_digit(#[trigger] s@[j]),
            !big ==> acc == digits_value(s@.subrange(start as int, i as int)) && acc <= I64_MAGNITUDE_MAX,
            big ==> digits_value(s@.subrange(start as int, i as int)) > I64_MAGNITUDE_MAX,
        decreases n - i,
    {
        let c = s[i];
        let cu = c as u32;
        assert(cu == (s@[i as int] as u32));
        if !(48 <= cu && cu <= 57) {
            proof {
                assert(!is_digit(body[i - start]));
                assert(!all_digits(body));
            }
            return None;
        }
        let ghost pre = s@.subrange(start as int, i as int);
        let ghost post = s@.subrange(start as int, i + 1);
        proof {
            assert(post.drop_last() =~= pre);
            assert(post.last() == c);
            assert forall|j: int| 0 <= j < pre.len() implies is_digit(#[trigger] pre[j]) by {
                assert(pre[j] == s@[start + j]);
            }
            lemma_digits_nonneg(pre);
        }
        let d = (cu - 48) as u128;
        if !big {
            let next = acc * 10 + d;
            if next > I64_MAGNITUDE_MAX {
                big = true;
            } else {
                acc = next;
            }
        }
        i = i + 1;
    }
    proof {
        assert forall|j: int| 0 <= j < body.len() implies is_digit(#[trigger] body[j]) by {
            assert(body[j] == s@[start + j]);
        }
    }
    if big {
        return None;
    }
    if neg {
        let v: i128 = -(acc as i128);
        if v < -9223372036854775808i128 {
            return None;
        }
        Some(v as i64)
    } else {
        if acc > 9223372036854775807u128 {
            return None;
        }
        Some(acc as i64)
    }
}

/// What a line of `netsh interface ipv6 show prefixpolicies` sets: the
/// precedence of `::/0` (IPv6, `true`) or of `::ffff:0:0/96` (IPv4,
/// `false`), -1 when it does not read as a number.
pub open spec fn policy_line(l: Seq<char>) -> Option<(bool, i64)> {
    let w = words(trimmed(l), true);
    if w.len() >= 2 && w[0] == "::/0"@ {
        Some((true, match parse_i64(w[1]) { Some(v) => v, None => -1i64 }))
    } else if w.len() >= 2 && w[0] == "::ffff:0:0/96"@ {
        Some((false, match parse_i64(w[1]) { Some(v) => v, None => -1i64 }))
    } else {
        None
    }
}

/// The (IPv6, IPv4) precedences the lines set, the last line for each
/// winning; 0 when none sets it.
pub open spec fn precedences(ls: Seq<Seq<char>>) -> (i64, i64)
    decreases ls.len(),
{
    if ls.len() == 0 {
        (0, 0)
    } else {
        let prev = precedences(ls.drop_last());
        match policy_line(ls.last()) {
            Some((true, p)) => (p, prev.1),
            Some((false, p)) => (prev.0, p),
            None => prev,
        }
    }
}

/// Reads the (IPv6, IPv4) precedences from the prefix-policy listing.
pub fn parse_prefix_policies(text: &str) -> (r: (i64, i64))
    ensures
        r == precedences(lines(text@)),
{
    let chars = chars_of(text);
    let ls = lines_of(&chars);
    let ghost lv = char_views(ls@);
    let mut v6: i64 = 0;
    let mut v4: i64 = 0;
    let mut i: usize = 0;
    while i < ls.len()
        invariant
            i <= ls@.len(),
            lv == char_views(ls@),
            (v6, v4) == precedences(lv.take(i as int)),
        decreases ls@.len() - i,
    {
        proof {
            assert(lv.take(i + 1).drop_last() =~= lv.take(i as int));
            assert(lv.take(i + 1).last() == ls@[i as int]@);
        }
        let t = trim_chars(&ls[i]);
        let w = words_of(&t, true);
        proof {
            reveal_strlit("::/0");
            reveal_strlit("::ffff:0:0/96");
        }
        if w.len() >= 2 {
            let first = string_of(&w[0]);
            let is_v6 = str_eq(first.as_str(), "::/0");
            let is_v4 = str_eq(first.as_str(), "::ffff:0:0/96");
            if is_v6 || is_v4 {
                let p = match parse_int(&w[1]) {
                    Some(v) => v,
                    None => -1,
                };
                if is_v6 {
                    v6 = p;
                } else {
                    v4 = p;
                }
            }
        }
        i = i + 1;
    }
    proof {
        assert(lv.take(lv.len() as int) =~= lv);
    }
    (v6, v4)
}

/// Whether the precedences make IPv6 preferred: above IPv4's and at least 40.
pub open spec fn prefers_ipv6(v6: i64, v4: i64) -> bool {
    v6 > v4 && v6 >= 40
}

/// The protocol bindings of one active physical adapter.
#[derive(Clone, Debug)]
pub struct AdapterBinding {
    pub name: String,
    pub ipv4: bool,
    pub ipv6: bool,
}

impl View for AdapterBinding {
    type V = (Seq<char>, bool, bool);

    open spec fn view(&self) -> (Seq<char>, bool, bool) {
        (self.name@, self.ipv4, self.ipv6)
    }
}

/// The views of a list of bindings.
pub open spec fn binding_views(s: Seq<AdapterBinding>) -> Seq<(Seq<char>, bool, bool)> {
    s.map_values(|b: AdapterBinding| b@)
}

/// The binding a line `name|ipv4|ipv6` of the binding listing describes
/// (`True` meaning bound); lines of another shape describe none.
pub open spec fn binding_line(l: Seq<char>) -> Option<(Seq<char>, bool, bool)> {
    let parts = split_on(trimmed(l), '|');
    if parts.len() == 3 {
        Some((parts[0], parts[1] == "True"@, parts[2] == "True"@))
    } else {
        None
    }
}

/// The bindings the lines describe, in order.
pub open spec fn bindings_of(ls: Seq<Seq<char>>) -> Seq<(Seq<char>, bool, bool)>
    decreases ls.len(),
{
    if ls.len() == 0 {
        Seq::empty()
    } else {
        let prev = bindings_of(ls.drop_last());
        match binding_line(ls.last()) {
            Some(b) => prev.push(b),
            None => prev,
        }
    }
}

/// Reads the adapter bindings from the binding listing.
pub fn parse_bindings(text: &str) -> (r: Vec<AdapterBinding>)
    ensures
        binding_views(r@) == bindings_of(lines(text@)),
{
    let chars = chars_of(text);
    let ls = lines_of(&chars);
    let ghost lv = char_views(ls@);
    let mut out: Vec<AdapterBinding> = Vec::new();
    let mut i: usize = 0;
    while i < ls.len()
        invariant
            i <= ls@.len(),
            lv == char_views(ls@),
            binding_views(out@) == bindings_of(lv.take(i as int)),
        decreases ls@.len() - i,
    {
        proof {
            assert(lv.take(i + 1).drop_last() =~= lv.take(i as int));
            assert(lv.take(i + 1).last() == ls@[i as int]@);
        }
        let t = trim_chars(&ls[i]);
        let parts = split_chars(&t, '|');
        if parts.len() == 3 {
            let name = string_of(&parts[0]);
            let v4 = string_of(&parts[1]);
            let v6 = string_of(&parts[2]);
            let b = AdapterBinding {
                name,
                ipv4: str_eq(v4.as_str(), "True"),
                ipv6: str_eq(v6.as_str(), "True"),
            };
            let ghost before = out@;
            out.push(b);
            proof {
                assert(binding_views(out@) =~= binding_views(before).push(b@));
            }
        }
        i = i + 1;
    }
    proof {
        assert(lv.take(lv.len() as int) =~= lv);
    }
    out
}

/// The first line of a text that is not blank, or the empty text.
pub open spec fn first_nonblank(ls: Seq<Seq<char>>) -> Seq<char>
    decreases ls.len(),
{
    if ls.len() == 0 {
        Seq::empty()
    } else if trimmed(ls[0]).len() > 0 {
        ls[0]
    } else {
        first_nonblank(ls.drop_first())
    }
}

/// The first non-blank line of a command's output (see `first_nonblank`).
pub fn first_line(s: &str) -> (r: String)
    ensures
        r@ == first_nonblank(lines(s@)),
{
    let chars = chars_of(s);
    let ls = lines_of(&chars);
    let ghost lv = char_views(ls@);
    let mut i: usize = 0;
    assert(lv.skip(0) =~= lv);
    while i < ls.len()
        invariant
            i <= ls@.len(),
            lv == char_views(ls@),
            lv == lines(s@),
            first_nonblank(lv) == first_nonblank(lv.skip(i as int)),
        decreases ls@.len() - i,
    {
        let t = trim_chars(&ls[i]);
        proof {
            assert(lv.skip(i as int).len() > 0);
            assert(lv.skip(i as int)[0] == ls@[i as int]@);
            assert(lv.skip(i as int).drop_first() =~= lv.skip(i + 1));
        }
        if t.len() > 0 {
            return string_of(&ls[i]);
        }
        i = i + 1;
    }
    assert(lv.skip(i as int) =~= Seq::<Seq<char>>::empty());
    String::new()
}

/// What the settings page shows of the IP protocol policy.
#[derive(Clone, Debug)]
pub struct PolicyStatus {
    pub v6_precedence: i64,
    pub v4_precedence: i64,
    pub prefer_ipv6: bool,
    pub adapters: Vec<AdapterBinding>,
    pub elevated: bool,
    pub error: Option<String>,
}

/// The message shown where the policy feature is unavailable.
pub const UNSUPPORTED_MESSAGE: &'static str = "IP 协议策略功能仅支持 Windows。";

/// The error reported when the prefix policies cannot be read.
pub open spec fn prefix_error(e: Seq<char>) -> Seq<char> {
    "读取 IPv6 前缀策略失败: "@ + first_nonblank(lines(e))
}

/// The error reported when the adapter bindings cannot be read.
pub open spec fn bindings_error(e: Seq<char>) -> Seq<char> {
    "读取网卡协议绑定失败: "@ + first_nonblank(lines(e))
}

/// The policy status from the outputs of the prefix-policy listing and of
/// the binding listing (each the command's output, or its error text) and
/// whether the process is elevated: the precedences and the preference when
/// the listing was read, the bindings when they were read, and the errors,
/// joined by `；`, of those that were not.
pub fn status(prefix_output: Result<String, String>, bindings_output: Result<String, String>, elevated: bool) -> (r: PolicyStatus)
    ensures
        r.elevated == elevated,
        match prefix_output {
            Ok(text) => {
                &&& (r.v6_precedence, r.v4_precedence) == precedences(lines(text@))
                &&& r.prefer_ipv6 == prefers_ipv6(r.v6_precedence, r.v4_precedence)
            },
            Err(_) => r.v6_precedence == 0 && r.v4_precedence == 0 && !r.prefer_ipv6,
        },
        match bindings_output {
            Ok(text) => binding_views(r.adapters@) == bindings_of(lines(text@)),
            Err(_) => r.adapters@.len() == 0,
        },
        opt_text(r.error) == match (prefix_output, bindings_output) {
            (Ok(_), Ok(_)) => None,
            (Err(e), Ok(_)) => Some(prefix_error(e@)),
            (Ok(_), Err(e)) => Some(bindings_error(e@)),
            (Err(e1), Err(e2)) => Some(prefix_error(e1@) + "；"@ + bindings_error(e2@)),
        },
{
    let mut st = PolicyStatus {
        v6_precedence: 0,
        v4_precedence: 0,
        prefer_ipv6: false,
        adapters: Vec::new(),
        elevated,
        error: None,
    };
    match &prefix_output {
        Ok(text) => {
            let (v6, v4) = parse_prefix_policies(text.as_str());
            st.v6_precedence = v6;
            st.v4_precedence = v4;
            st.prefer_ipv6 = v6 > v4 && v6 >= 40;
        },
        Err(e) => {
            let mut msg = String::from_str("读取 IPv6 前缀策略失败: ");
            let l = first_line(e.as_str());
            msg.append(l.as_str());
            st.error = Some(msg);
        },
    }
    match &bindings_output {
        Ok(text) => {
            st.adapters = parse_bindings(text.as_str());
        },
        Err(e) => {
            let mut msg = String::from_str("读取网卡协议绑定失败: ");
            let l = first_line(e.as_str());
            msg.append(l.as_str());
            let joined = match st.error.take() {
                Some(prev) => {
                    let mut j = prev;
                    j.append("；");
                    j.append(msg.as_str());
                    j
                },
                None => msg,
            };
            st.error = Some(joined);
        },
    }
    proof {
        assert(st.adapters@.len() == 0 ==> binding_views(st.adapters@) =~= Seq::empty());
    }
    st
}

/// The text of an optional string.
pub open spec fn opt_text(o: Option<String>) -> Option<Seq<char>> {
    match o {
        Some(s) => Some(s@),
        None => None,
    }
}

/// The status reported where the policy feature is unavailable: nothing
/// read, and the reason as the error.
pub fn status_unsupported() -> (r: PolicyStatus)
    ensures
        r.v6_precedence == 0,
        r.v4_precedence == 0,
        !r.prefer_ipv6,
        r.adapters@.len() == 0,
        !r.elevated,
        opt_text(r.error) == Some(UNSUPPORTED_MESSAGE@),
{
    PolicyStatus {
        v6_precedence: 0,
        v4_precedence: 0,
        prefer_ipv6: false,
        adapters: Vec::new(),
        elevated: false,
        error: Some(String::from_str(UNSUPPORTED_MESSAGE)),
    }
}

/// The answer to a policy change where the feature is unavailable.
pub fn apply_unsupported() -> (r: Result<String, String>)
    ensures
        r matches Err(e) && e@ == UNSUPPORTED_MESSAGE@,
{
    Err(String::from_str(UNSUPPORTED_MESSAGE))
}

/// `s` with every occurrence of `from` (non-empty), left to right and not
/// overlapping, replaced by `to`, as `str::replace` does.
pub open spec fn replace_all(s: Seq<char>, from: Seq<char>, to: Seq<char>) -> Seq<char>
    decreases s.len(),
{
    if s.len() == 0 {
        s
    } else if from.len() > 0 && starts_with(s, from) {
        to + replace_all(s.skip(from.len() as int), from, to)
    } else {
        seq![s[0]] + replace_all(s.drop_first(), from, to)
    }
}

/// `s` with every occurrence of `from` replaced by `to` (see `replace_all`).
pub fn replace_str(s: &str, from: &str, to: &str) -> (r: String)
    requires
        from@.len() > 0,
    ensures
        r@ == replace_all(s@, from@, to@),
{
    let sv = chars_of(s);
    let fv = chars_of(from);
    let tv = chars_of(to);
    let mut out: Vec<char> = Vec::new();
    let mut i: usize = 0;
    proof {
        assert(sv@.skip(0) =~= sv@);
        assert(out@ + replace_all(sv@.skip(0), fv@, tv@) =~= replace_all(s@, from@, to@));
    }
    while i < sv.len()
        invariant
            i <= sv@.len(),
            fv@.len() > 0,
            sv@ == s@,
            fv@ == from@,
            tv@ == to@,
            out@ + replace_all(sv@.skip(i as int), fv@, tv@) == replace_all(s@, from@, to@),
        decreases sv@.len() - i,
    {
        let ghost rest = sv@.skip(i as int);
        let hit = fv.len() <= sv.len() && i <= sv.len() - fv.len() && crate::text::occurs_at_exec(&sv, &fv, i);
        proof {
            assert(rest.len() > 0);
            if hit {
                assert(rest.subrange(0, fv@.len() as int) =~= sv@.subrange(i as int, i + fv@.len()));
            } else {
                if fv@.len() <= rest.len() {
                    assert(rest.subrange(0, fv@.len() as int) =~= sv@.subrange(i as int, i + fv@.len()));
                }
            }
        }
        if hit {
            let ghost before = out@;
            let mut k: usize = 0;
            while k < tv.len()
                invariant
                    k <= tv@.len(),
                    out@ == before + tv@.take(k as int),
                decreases tv@.len() - k,
            {
                out.push(tv[k]);
                k = k + 1;
                assert(out@ =~= before + tv@.take(k as int));
            }
            proof {
                assert(tv@.take(tv@.len() as int) =~= tv@);
                assert(rest.skip(fv@.len() as int) =~= sv@.skip(i + fv@.len()));
                assert(before + (tv@ + replace_all(sv@.skip(i + fv@.len()), fv@, tv@)) =~= out@ + replace_all(
                    sv@.skip(i + fv@.len()),
                    fv@,
                    tv@,
                ));
            }
            i = i + fv.len();
        } else {
            let ghost before = out@;
            out.push(sv[i]);
            proof {
                assert(rest.drop_first() =~= sv@.skip(i + 1));
                assert(before + (seq![sv@[i as int]] + replace_all(sv@.skip(i + 1), fv@, tv@)) =~= out@ + replace_all(
                    sv@.skip(i + 1),
                    fv@,
                    tv@,
                ));
            }
            i = i + 1;
        }
    }
    proof {
        assert(sv@.skip(i as int) =~= Seq::<char>::empty());
        assert(out@ + Seq::<char>::empty() =~= out@);
    }
    string_of(&out)
}

/// The error text of a failed command: its standard error, or its standard
/// output when the error stream is blank.
pub open spec fn failure_text_of(stdout: Seq<char>, stderr: Seq<char>) -> Seq<char> {
    if trimmed(stderr).len() == 0 {
        stdout
    } else {
        stderr
    }
}

/// The error text of a failed command (see `failure_text_of`).
pub fn failure_text(stdout: &str, stderr: &str) -> (r: String)
    ensures
        r@ == failure_text_of(stdout@, stderr@),
{
    let e = chars_of(stderr);
    let t = trim_chars(&e);
    if t.len() == 0 {
        String::from_str(stdout)
    } else {
        String::from_str(stderr)
    }
}

/// Lists the active physical adapters as `name|ipv4|ipv6` lines.
pub const BINDINGS_SCRIPT: &'static str = r#"
[Console]::OutputEncoding = [System.Text.Encoding]::UTF8
Get-NetAdapter -Physical -ErrorAction SilentlyContinue | Where-Object { $_.Status -eq 'Up' } | ForEach-Object {
  $v4 = Get-NetAdapterBinding -Name $_.Name -ComponentID 'ms_tcpip' -ErrorAction SilentlyContinue
  $v6 = Get-NetAdapterBinding -Name $_.Name -ComponentID 'ms_tcpip6' -ErrorAction SilentlyContinue
  '{0}|{1}|{2}' -f $_.Name, [bool]($v4.Enabled), [bool]($v6.Enabled)
}
"#;

/// Switches a protocol binding of the active wireless adapter (falling back
/// to the adapter that holds the IPv6 default route); reports `OK|…` or `ERR|…`.
pub const WLAN_BINDING_SCRIPT: &'static str = r#"
$ErrorActionPreference = 'Stop'
[Console]::OutputEncoding = [System.Text.Encoding]::UTF8
$adapters = @(Get-NetAdapter -Physical -ErrorAction SilentlyContinue | Where-Object { $_.Status -eq 'Up' })
$wireless = @($adapters | Where-Object { $_.Name -match '(?i)wi-?fi|wlan|wireless|802\.11' -or $_.InterfaceDescription -match '(?i)wi-?fi|wlan|wireless|802\.11' })
if ($wireless.Count -eq 0) {
  $wireless = @($adapters | Where-Object { Get-NetRoute -InterfaceIndex $_.ifIndex -AddressFamily IPv6 -DestinationPrefix '::/0' -ErrorAction SilentlyContinue | Where-Object { $_.State -ne 'Invalid' } })
}
if ($wireless.Count -eq 0) { Write-Output 'ERR|未找到已连接的物理网卡'; exit 2 }
$a = $wireless[0]
$binding = Get-NetAdapterBinding -Name $a.Name -ComponentID '__COMP__' -ErrorAction SilentlyContinue
if ($binding -and ([bool]$binding.Enabled) -eq __WANT__) {
  Write-Output "OK|$($a.Name)|__MSG__（当前已处于目标状态）"
  exit 0
}
__VERB__-NetAdapterBinding -Name $a.Name -ComponentID '__COMP__' -Confirm:$false
Write-Output "OK|$($a.Name)|__MSG__。如当前连接中断，请重新连接 Wi-Fi 后生效"
"#;

pub const ADMIN_REQUIRED_MESSAGE: &'static str = "需要管理员权限：请以管理员身份运行 FlowLens 后再设置 IP 协议策略。";

pub const EMPTY_OUTPUT_MESSAGE: &'static str = "命令执行完成但没有返回结果，请重试或检查网卡状态。";

pub const PREFER_IPV6_MESSAGE: &'static str = "已设置 IPv6 优先策略（::/0=40 > IPv4=35）。双栈目标优先走 IPv6，IPv4 仍可回退；策略重启后保留。";

pub const PREFER_IPV4_MESSAGE: &'static str = "已设置 IPv4 优先策略（IPv4=46 > ::/0=40）。双栈目标优先走 IPv4，无 IPv4 的目标仍走 IPv6。";

pub const IPV6_ONLY_MESSAGE: &'static str = "IPv6-only：已禁用活动无线网卡的 IPv4 协议绑定";

pub const IPV4_ONLY_MESSAGE: &'static str = "IPv4-only：已禁用活动无线网卡的 IPv6 协议绑定";

pub const IPV4_BOUND_MESSAGE: &'static str = "已启用 IPv4 协议绑定";

pub const IPV6_BOUND_MESSAGE: &'static str = "已启用 IPv6 协议绑定";

pub const RESET_MESSAGE: &'static str = "；已重置为默认 IPv6 优先策略";

/// The PowerShell script that switches binding `component` on or off and
/// reports `ok_msg` (see `WLAN_BINDING_SCRIPT`).
pub open spec fn binding_script(component: Seq<char>, enable: bool, ok_msg: Seq<char>) -> Seq<char> {
    let verb = if enable { "Enable"@ } else { "Disable"@ };
    let want = if enable { "$true"@ } else { "$false"@ };
    replace_all(
        replace_all(replace_all(replace_all(WLAN_BINDING_SCRIPT@, "__COMP__"@, component), "__VERB__"@, verb), "__WANT__"@, want),
        "__MSG__"@,
        ok_msg,
    )
}

/// The binding script (see `binding_script`).
pub fn binding_script_for(component: &str, enable: bool, ok_msg: &str) -> (r: String)
    ensures
        r@ == binding_script(component@, enable, ok_msg@),
{
    proof {
        reveal_strlit("__COMP__");
        reveal_strlit("__VERB__");
        reveal_strlit("__WANT__");
        reveal_strlit("__MSG__");
    }
    let verb = if enable { "Enable" } else { "Disable" };
    let want = if enable { "$true" } else { "$false" };
    let s1 = replace_str(WLAN_BINDING_SCRIPT, "__COMP__", component);
    let s2 = replace_str(s1.as_str(), "__VERB__", verb);
    let s3 = replace_str(s2.as_str(), "__WANT__", want);
    replace_str(s3.as_str(), "__MSG__", ok_msg)
}

/// The first line of a binding script's output marked `OK|` (its result)
/// or `ERR|` (its error), with the mark removed.
pub open spec fn marked_line(ls: Seq<Seq<char>>) -> Option<Result<Seq<char>, Seq<char>>>
    decreases ls.len(),
{
    if ls.len() == 0 {
        None
    } else if starts_with(ls[0], "OK|"@) {
        Some(Ok(ls[0].skip(3)))
    } else if starts_with(ls[0], "ERR|"@) {
        Some(Err(ls[0].skip(4)))
    } else {
        marked_line(ls.drop_first())
    }
}

/// What a binding switch comes to, given the script's outcome: a failed
/// run's error; else the first marked line; else the trimmed output, or an
/// error when there is none.
pub open spec fn binding_result(outcome: Result<Seq<char>, Seq<char>>) -> Result<Seq<char>, Seq<char>> {
    match outcome {
        Err(e) => Err(e),
        Ok(out) => match marked_line(lines(out)) {
            Some(r) => r,
            None => if trimmed(out).len() == 0 {
                Err(EMPTY_OUTPUT_MESSAGE@)
            } else {
                Ok(trimmed(out))
            },
        },
    }
}

/// The text of a command outcome.
pub open spec fn outcome_view(o: Result<String, String>) -> Result<Seq<char>, Seq<char>> {
    match o {
        Ok(s) => Ok(s@),
        Err(e) => Err(e@),
    }
}

/// What a binding switch comes to (see `binding_result`).
pub fn binding_outcome(outcome: Result<String, String>) -> (r: Result<String, String>)
    ensures
        outcome_view(r) == binding_result(outcome_view(outcome)),
{
    let out = match outcome {
        Err(e) => return Err(e),
        Ok(out) => out,
    };
    proof {
        reveal_strlit("OK|");
        reveal_strlit("ERR|");
    }
    let chars = chars_of(out.as_str());
    let ls = lines_of(&chars);
    let ghost lv = char_views(ls@);
    let ok_mark = chars_of("OK|");
    let err_mark = chars_of("ERR|");
    let mut i: usize = 0;
    assert(lv.skip(0) =~= lv);
    while i < ls.len()
        invariant
            i <= ls@.len(),
            lv == char_views(ls@),
            lv == lines(out@),
            ok_mark@ == "OK|"@,
            err_mark@ == "ERR|"@,
            ok_mark@.len() == 3,
            err_mark@.len() == 4,
            outcome_view(outcome) == Ok::<Seq<char>, Seq<char>>(out@),
            marked_line(lv) == marked_line(lv.skip(i as int)),
        decreases ls@.len() - i,
    {
        proof {
            assert(lv.skip(i as int).len() > 0);
            assert(lv.skip(i as int)[0] == ls@[i as int]@);
            assert(lv.skip(i as int).drop_first() =~= lv.skip(i + 1));
        }
        let l = &ls[i];
        if crate::text::occurs_at_exec(l, &ok_mark, 0) {
            let rest = crate::text::split_off_chars(l, 3);
            return Ok(string_of(&rest));
        }
        if crate::text::occurs_at_exec(l, &err_mark, 0) {
            let rest = crate::text::split_off_chars(l, 4);
            return Err(string_of(&rest));
        }
        i = i + 1;
    }
    assert(lv.skip(i as int) =~= Seq::<Seq<char>>::empty());
    let t = trim_chars(&chars);
    if t.len() == 0 {
        Err(String::from_str(EMPTY_OUTPUT_MESSAGE))
    } else {
        Ok(string_of(&t))
    }
}

/// A policy mode.
#[derive(Clone, Copy, Debug, PartialEq, Eq, Structural)]
pub enum PolicyMode {
    PreferIpv6,
    PreferIpv4,
    Ipv6Only,
    Ipv4Only,
    RestoreDual,
}

/// The mode a name selects.
pub open spec fn mode_of(name: Seq<char>) -> Option<PolicyMode> {
    if name == "prefer_ipv6"@ {
        Some(PolicyMode::PreferIpv6)
    } else if name == "prefer_ipv4"@ {
        Some(PolicyMode::PreferIpv4)
    } else if name == "ipv6_only"@ {
        Some(PolicyMode::Ipv6Only)
    } else if name == "ipv4_only"@ {
        Some(PolicyMode::Ipv4Only)
    } else if name == "restore_dual"@ {
        Some(PolicyMode::RestoreDual)
    } else {
        None
    }
}

/// One step of applying a mode: set a prefix policy, or switch a protocol
/// binding of the active wireless adapter.
#[derive(Clone, Copy, Debug)]
pub enum PolicyTask {
    SetPolicy { prefix: &'static str, precedence: u32, label: u32 },
    Binding { component: &'static str, enable: bool, ok_msg: &'static str },
}

/// The steps of a mode, in order.
pub open spec fn plan_of(mode: PolicyMode) -> Seq<PolicyTask> {
    match mode {
        PolicyMode::PreferIpv6 => seq![
            PolicyTask::SetPolicy { prefix: "::/0", precedence: 40, label: 1 },
            PolicyTask::SetPolicy { prefix: "::ffff:0:0/96", precedence: 35, label: 4 },
        ],
        PolicyMode::PreferIpv4 => seq![
            PolicyTask::SetPolicy { prefix: "::/0", precedence: 40, label: 1 },
            PolicyTask::SetPolicy { prefix: "::ffff:0:0/96", precedence: 46, label: 4 },
        ],
        PolicyMode::Ipv6Only => seq![
            PolicyTask::Binding { component: "ms_tcpip", enable: false, ok_msg: IPV6_ONLY_MESSAGE },
        ],
        PolicyMode::Ipv4Only => seq![
            PolicyTask::Binding { component: "ms_tcpip6", enable: false, ok_msg: IPV4_ONLY_MESSAGE },
        ],
        PolicyMode::RestoreDual => seq![
            PolicyTask::Binding { component: "ms_tcpip", enable: true, ok_msg: IPV4_BOUND_MESSAGE },
            PolicyTask::Binding { component: "ms_tcpip6", enable: true, ok_msg: IPV6_BOUND_MESSAGE },
            PolicyTask::SetPolicy { prefix: "::/0", precedence: 40, label: 1 },
            PolicyTask::SetPolicy { prefix: "::ffff:0:0/96", precedence: 35, label: 4 },
        ],
    }
}

/// The IP version whose protocol binding a component switches: `ms_tcpip`
/// is IPv4, `ms_tcpip6` is IPv6.
pub open spec fn binding_ip_version(component: Seq<char>) -> Option<u8> {
    if component == "ms_tcpip"@ {
        Some(4u8)
    } else if component == "ms_tcpip6"@ {
        Some(6u8)
    } else {
        None
    }
}

/// Whether the mode named `name` keeps IP version `version` bound: an
/// `ipv6_only` mode drops IPv4, an `ipv4_only` mode drops IPv6, every other
/// mode keeps both.
pub open spec fn mode_keeps(name: Seq<char>, version: u8) -> bool {
    !(name == "ipv6_only"@ && version == 4) && !(name == "ipv4_only"@ && version == 6)
}

/// The bindings a mode switches follow its name: every binding step of the
/// plan that the name selects switches the IPv4 or IPv6 protocol binding, on
/// exactly when the mode keeps that version; and each version the mode's
/// name excludes is switched off by some step.
pub proof fn lemma_plan_bindings_follow_mode(name: Seq<char>)
    ensures
        mode_of(name) matches Some(m) ==> forall|i: int|
            0 <= i < plan_of(m).len() ==> (#[trigger] plan_of(m)[i] matches PolicyTask::Binding {
                component,
                enable,
                ..
            } ==> binding_ip_version(component@) matches Some(v) && enable == mode_keeps(name, v)),
        mode_of(name) matches Some(m) ==> forall|v: u8|
            (v == 4 || v == 6) && !#[trigger] mode_keeps(name, v) ==> exists|i: int|
                0 <= i < plan_of(m).len() && (#[trigger] plan_of(m)[i] matches PolicyTask::Binding {
                    component,
                    enable,
                    ..
                } && !enable && binding_ip_version(component@) == Some(v)),
{
    reveal_strlit("ms_tcpip");
    reveal_strlit("ms_tcpip6");
    reveal_strlit("prefer_ipv6");
    reveal_strlit("prefer_ipv4");
    reveal_strlit("ipv6_only");
    reveal_strlit("ipv4_only");
    reveal_strlit("restore_dual");
    if let Some(m) = mode_of(name) {
        let p = plan_of(m);
        assert(binding_ip_version("ms_tcpip"@) == Some(4u8));
        assert("ms_tcpip6"@ != "ms_tcpip"@) by {
            assert("ms_tcpip6"@.len() != "ms_tcpip"@.len());
        }
        assert(binding_ip_version("ms_tcpip6"@) == Some(6u8));
        assert("ipv6_only"@ != "ipv4_only"@) by {
            assert("ipv6_only"@[3] != "ipv4_only"@[3]);
        }
        match m {
            PolicyMode::Ipv6Only => {
                assert(name == "ipv6_only"@);
                assert(p[0] matches PolicyTask::Binding { component, enable, .. } && !enable
                    && binding_ip_version(component@) == Some(4u8));
            },
            PolicyMode::Ipv4Only => {
                assert(name == "ipv4_only"@);
                assert(p[0] matches PolicyTask::Binding { component, enable, .. } && !enable
                    && binding_ip_version(component@) == Some(6u8));
            },
            _ => {
                assert("ipv6_only"@ != "prefer_ipv6"@ && "ipv6_only"@ != "prefer_ipv4"@) by {
                    assert("ipv6_only"@.len() != "prefer_ipv6"@.len());
                }
                assert("ipv4_only"@ != "prefer_ipv6"@ && "ipv4_only"@ != "prefer_ipv4"@) by {
                    assert("ipv4_only"@.len() != "prefer_ipv6"@.len());
                }
                assert(mode_of("ipv6_only"@) == Some(PolicyMode::Ipv6Only));
                assert(mode_of("ipv4_only"@) == Some(PolicyMode::Ipv4Only));
                assert(name != "ipv6_only"@ && name != "ipv4_only"@);
            },
        }
    }
}

fn plan(mode: PolicyMode) -> (r: Vec<PolicyTask>)
    ensures
        r@ == plan_of(mode),
{
    let r = match mode {
        PolicyMode::PreferIpv6 => vec![
            PolicyTask::SetPolicy { prefix: "::/0", precedence: 40, label: 1 },
            PolicyTask::SetPolicy { prefix: "::ffff:0:0/96", precedence: 35, label: 4 },
        ],
        PolicyMode::PreferIpv4 => vec![
            PolicyTask::SetPolicy { prefix: "::/0", precedence: 40, label: 1 },
            PolicyTask::SetPolicy { prefix: "::ffff:0:0/96", precedence: 46, label: 4 },
        ],
        PolicyMode::Ipv6Only => vec![
            PolicyTask::Binding { component: "ms_tcpip", enable: false, ok_msg: IPV6_ONLY_MESSAGE },
        ],
        PolicyMode::Ipv4Only => vec![
            PolicyTask::Binding { component: "ms_tcpip6", enable: false, ok_msg: IPV4_ONLY_MESSAGE },
        ],
        PolicyMode::RestoreDual => vec![
            PolicyTask::Binding { component: "ms_tcpip", enable: true, ok_msg: IPV4_BOUND_MESSAGE },
            PolicyTask::Binding { component: "ms_tcpip6", enable: true, ok_msg: IPV6_BOUND_MESSAGE },
            PolicyTask::SetPolicy { prefix: "::/0", precedence: 40, label: 1 },
            PolicyTask::SetPolicy { prefix: "::ffff:0:0/96", precedence: 35, label: 4 },
        ],
    };
    assert(r@ =~= plan_of(mode));
    r
}

/// The `netsh` arguments that set (or, on the retry, add) a prefix policy.
pub open spec fn set_policy_args(prefix: Seq<char>, precedence: u32, label: u32, add: bool) -> Seq<Seq<char>> {
    seq![
        "interface"@,
        "ipv6"@,
        if add { "add"@ } else { "set"@ },
        "prefixpolicy"@,
        prefix,
        crate::embedded_assets_server::decimal(precedence as nat),
        crate::embedded_assets_server::decimal(label as nat),
    ]
}

/// The error of a prefix policy that could be neither set nor added.
pub open spec fn set_policy_error(prefix: Seq<char>, precedence: u32, e: Seq<char>) -> Seq<char> {
    "netsh 设置前缀策略 "@ + prefix + "="@ + crate::embedded_assets_server::decimal(precedence as nat) + " 失败: "@
        + first_nonblank(lines(e))
}

/// A command to run.
#[derive(Debug)]
pub enum PolicyCommand {
    /// `netsh` with these arguments.
    Netsh(Vec<String>),
    /// `powershell -NoProfile -NonInteractive -Command` with this script.
    PowerShell(String),
}

/// `c` is the command of `task` (its retry, for a prefix policy, when `retry`).
pub open spec fn command_is(c: PolicyCommand, task: PolicyTask, retry: bool) -> bool {
    match task {
        PolicyTask::SetPolicy { prefix, precedence, label } => c matches PolicyCommand::Netsh(args)
            && args@.map_values(|a: String| a@) == set_policy_args(prefix@, precedence, label, retry),
        PolicyTask::Binding { component, enable, ok_msg } => c matches PolicyCommand::PowerShell(script)
            && script@ == binding_script(component@, enable, ok_msg@),
    }
}

fn command_for(task: PolicyTask, retry: bool) -> (c: PolicyCommand)
    ensures
        command_is(c, task, retry),
{
    match task {
        PolicyTask::SetPolicy { prefix, precedence, label } => {
            let args = vec![
                String::from_str("interface"),
                String::from_str("ipv6"),
                String::from_str(if retry { "add" } else { "set" }),
                String::from_str("prefixpolicy"),
                String::from_str(prefix),
                crate::embedded_assets_server::decimal_string(precedence as u64),
                crate::embedded_assets_server::decimal_string(label as u64),
            ];
            assert(args@.map_values(|a: String| a@) =~= set_policy_args(prefix@, precedence, label, retry));
            PolicyCommand::Netsh(args)
        },
        PolicyTask::Binding { component, enable, ok_msg } => {
            PolicyCommand::PowerShell(binding_script_for(component, enable, ok_msg))
        },
    }
}

/// What a command's outcome makes of a step: `Err` fails the mode with that
/// error; `Ok(None)` retries (a prefix policy that could not be set is
/// added); `Ok(Some(m))` completes the step with result `m`.
pub open spec fn task_outcome(task: PolicyTask, retry: bool, outcome: Result<Seq<char>, Seq<char>>) -> Result<Option<Seq<char>>, Seq<char>> {
    match task {
        PolicyTask::SetPolicy { prefix, precedence, label } => match outcome {
            Ok(_) => Ok(Some(Seq::empty())),
            Err(e) => if retry {
                Err(set_policy_error(prefix@, precedence, e))
            } else {
                Ok(None)
            },
        },
        PolicyTask::Binding { .. } => match binding_result(outcome) {
            Ok(m) => Ok(Some(m)),
            Err(e) => Err(e),
        },
    }
}

/// The message of a mode applied completely, from its binding steps' results.
pub open spec fn finish_text(mode: PolicyMode, results: Seq<Seq<char>>) -> Seq<char> {
    match mode {
        PolicyMode::PreferIpv6 => PREFER_IPV6_MESSAGE@,
        PolicyMode::PreferIpv4 => PREFER_IPV4_MESSAGE@,
        PolicyMode::Ipv6Only => results[0],
        PolicyMode::Ipv4Only => results[0],
        PolicyMode::RestoreDual => results[0] + "；"@ + results[1] + RESET_MESSAGE@,
    }
}

/// The number of binding steps among the first `i` steps.
pub open spec fn bindings_before(tasks: Seq<PolicyTask>, i: int) -> nat
    decreases i,
{
    if i <= 0 {
        0
    } else {
        bindings_before(tasks, i - 1) + if tasks[i - 1] is Binding { 1nat } else { 0nat }
    }
}

/// What to do next: run a command, or finish with the answer for the user.
#[derive(Debug)]
pub enum PolicyStep {
    Run(PolicyCommand),
    Done(Result<String, String>),
}

/// The application of a policy mode in progress.
pub struct PolicyApply {
    mode: PolicyMode,
    tasks: Vec<PolicyTask>,
    index: usize,
    retry: bool,
    results: Vec<String>,
    done: bool,
}

impl PolicyApply {
    pub closed spec fn mode(&self) -> PolicyMode {
        self.mode
    }

    pub closed spec fn tasks(&self) -> Seq<PolicyTask> {
        self.tasks@
    }

    /// The step being run.
    pub closed spec fn index(&self) -> int {
        self.index as int
    }

    /// Whether the prefix policy of the current step is being added after it
    /// could not be set.
    pub closed spec fn retrying(&self) -> bool {
        self.retry
    }

    /// The results of the binding steps completed so far.
    pub closed spec fn results(&self) -> Seq<Seq<char>> {
        self.results@.map_values(|r: String| r@)
    }

    /// A mode in progress follows its plan and holds one result per binding
    /// step completed.
    #[verifier::type_invariant]
    spec fn wf(&self) -> bool {
        self.done || (self.tasks@ == plan_of(self.mode) && self.index < self.tasks@.len()
            && self.results@.len() == bindings_before(self.tasks@, self.index as int))
    }

    /// Whether a command is running whose outcome is awaited.
    pub closed spec fn awaiting(&self) -> bool {
        !self.done && self.index < self.tasks@.len()
    }

    fn idle() -> (r: Self)
        ensures
            !r.awaiting(),
    {
        PolicyApply {
            mode: PolicyMode::PreferIpv6,
            tasks: Vec::new(),
            index: 0,
            retry: false,
            results: Vec::new(),
            done: true,
        }
    }

    /// Whether a command's outcome is awaited.
    pub fn is_awaiting(&self) -> (r: bool)
        ensures
            r == self.awaiting(),
    {
        !self.done && self.index < self.tasks.len()
    }

    /// Starts applying mode `mode`: administrator rights are required, and
    /// the mode must be one of `prefer_ipv6`, `prefer_ipv4`, `ipv6_only`,
    /// `ipv4_only` and `restore_dual`; then the first command of its plan runs.
    pub fn apply(mode: &str, elevated: bool) -> (r: (Self, PolicyStep))
        ensures
            !elevated ==> !r.0.awaiting() && (r.1 matches PolicyStep::Done(Err(e)) && e@ == ADMIN_REQUIRED_MESSAGE@),
            elevated && mode_of(mode@) is None ==> !r.0.awaiting() && (r.1 matches PolicyStep::Done(Err(e)) && e@
                == "未知模式: "@ + mode@),
            elevated ==> (mode_of(mode@) matches Some(m) ==> {
                &&& r.0.mode() == m
                &&& r.0.tasks() == plan_of(m)
                &&& r.0.index() == 0
                &&& !r.0.retrying()
                &&& r.0.results().len() == 0
                &&& r.0.awaiting()
                &&& r.1 matches PolicyStep::Run(c) && command_is(c, plan_of(m)[0], false)
            }),
    {
        let idle = PolicyApply::idle();
        if !elevated {
            return (idle, PolicyStep::Done(Err(String::from_str(ADMIN_REQUIRED_MESSAGE))));
        }
        let m = if str_eq(mode, "prefer_ipv6") {
            PolicyMode::PreferIpv6
        } else if str_eq(mode, "prefer_ipv4") {
            PolicyMode::PreferIpv4
        } else if str_eq(mode, "ipv6_only") {
            PolicyMode::Ipv6Only
        } else if str_eq(mode, "ipv4_only") {
            PolicyMode::Ipv4Only
        } else if str_eq(mode, "restore_dual") {
            PolicyMode::RestoreDual
        } else {
            let mut msg = String::from_str("未知模式: ");
            msg.append(mode);
            return (idle, PolicyStep::Done(Err(msg)));
        };
        let tasks = plan(m);
        let first = command_for(tasks[0], false);
        let r = PolicyApply { mode: m, tasks, index: 0, retry: false, results: Vec::new(), done: false };
        assert(r.results() =~= Seq::empty());
        (r, PolicyStep::Run(first))
    }

    /// Takes the outcome of the running command (its output, or its error
    /// text) and says what to do next (see `task_outcome` and `finish_text`).
    pub fn resume(&mut self, outcome: Result<String, String>) -> (step: PolicyStep)
        requires
            old(self).awaiting(),
        ensures
            final(self).mode() == old(self).mode(),
            final(self).tasks() == old(self).tasks(),
            ({
                let task = old(self).tasks()[old(self).index()];
                match task_outcome(task, old(self).retrying(), outcome_view(outcome)) {
                    Err(e) => !final(self).awaiting() && (step matches PolicyStep::Done(Err(x)) && x@ == e),
                    Ok(None) => {
                        &&& final(self).awaiting()
                        &&& final(self).index() == old(self).index()
                        &&& final(self).retrying()
                        &&& final(self).results() == old(self).results()
                        &&& step matches PolicyStep::Run(c) && command_is(c, task, true)
                    },
                    Ok(Some(m)) => {
                        let rs = if task is Binding { old(self).results().push(m) } else { old(self).results() };
                        &&& final(self).results() == rs
                        &&& final(self).index() == old(self).index() + 1
                        &&& !final(self).retrying()
                        &&& if old(self).index() + 1 < old(self).tasks().len() {
                            &&& final(self).awaiting()
                            &&& step matches PolicyStep::Run(c) && command_is(c, old(self).tasks()[old(self).index() + 1], false)
                        } else {
                            &&& !final(self).awaiting()
                            &&& step matches PolicyStep::Done(Ok(x)) && x@ == finish_text(old(self).mode(), rs)
                        }
                    },
                }
            }),
    {
        proof {
            use_type_invariant(&*self);
        }
        let ghost old_results = self.results();
        let mut cur = PolicyApply::idle();
        std::mem::swap(&mut cur, self);
        let PolicyApply { mode, tasks, index, retry, results, done } = cur;
        let mut results = results;
        let task = tasks[index];
        match task {
            PolicyTask::SetPolicy { prefix, precedence, label } => {
                match outcome {
                    Ok(_) => {},
                    Err(e) => {
                        if retry {
                            let mut msg = String::from_str("netsh 设置前缀策略 ");
                            msg.append(prefix);
                            msg.append("=");
                            let p = crate::embedded_assets_server::decimal_string(precedence as u64);
                            msg.append(p.as_str());
                            msg.append(" 失败: ");
                            let l = first_line(e.as_str());
                            msg.append(l.as_str());
                            *self = PolicyApply { mode, tasks, index, retry, results, done: true };
                            return PolicyStep::Done(Err(msg));
                        } else {
                            let c = command_for(task, true);
                            *self = PolicyApply { mode, tasks, index, retry: true, results, done };
                            return PolicyStep::Run(c);
                        }
                    },
                }
            },
            PolicyTask::Binding { .. } => {
                match binding_outcome(outcome) {
                    Ok(m) => {
                        results.push(m);
                        proof {
                            assert(results@.map_values(|r: String| r@) =~= old_results.push(m@));
                        }
                    },
                    Err(e) => {
                        *self = PolicyApply { mode, tasks, index, retry, results, done: true };
                        return PolicyStep::Done(Err(e));
                    },
                }
            },
        }
        proof {
            assert(results@.len() == bindings_before(tasks@, index + 1));
            assert(tasks@.len() <= 4);
        }
        let next = index + 1;
        if next < tasks.len() {
            let c = command_for(tasks[next], false);
            *self = PolicyApply { mode, tasks, index: next, retry: false, results, done: false };
            return PolicyStep::Run(c);
        }
        proof {
            reveal_with_fuel(bindings_before, 5);
        }
        let text = match mode {
            PolicyMode::PreferIpv6 => String::from_str(PREFER_IPV6_MESSAGE),
            PolicyMode::PreferIpv4 => String::from_str(PREFER_IPV4_MESSAGE),
            PolicyMode::Ipv6Only => results[0].clone(),
            PolicyMode::Ipv4Only => results[0].clone(),
            PolicyMode::RestoreDual => {
                let mut t = results[0].clone();
                t.append("；");
                t.append(results[1].as_str());
                t.append(RESET_MESSAGE);
                t
            },
        };
        *self = PolicyApply { mode, tasks, index: next, retry: false, results, done: true };
        PolicyStep::Done(Ok(text))
    }
}

} // verus!
