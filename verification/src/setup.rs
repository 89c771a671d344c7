//! What the program decides around its files and privileges: where its
//! configuration lives, whether it runs as root, the permission rules it
//! installs, and when the daemon rescans the hardware.

use vstd::prelude::*;
use crate::text::{
    find_char_from, find_from, is_whitespace, join_path, join_spec, parse_unsigned,
    parse_unsigned_spec, starts_with, starts_with_spec, substring, trim, trim_spec, trim_start_spec,
};

verus! {

/// The configuration directory: `$HOME/.config/fancontroller`, or
/// `/tmp/fancontroller` when `HOME` is not set.
pub open spec fn config_dir_spec(home: Option<Seq<char>>) -> Seq<char> {
    match home {
        Some(h) => join_spec(join_spec(h, ".config"@), "fancontroller"@),
        None => "/tmp/fancontroller"@,
    }
}

/// The optional view of an optional string slice.
pub open spec fn opt_view(s: Option<&str>) -> Option<Seq<char>> {
    match s {
        Some(c) => Some(c@),
        None => None,
    }
}

/// The configuration directory for the value of `HOME`.
pub fn config_dir(home: Option<&str>) -> (d: String)
    ensures
        d@ == config_dir_spec(opt_view(home)),
{
    proof {
        reveal_strlit(".config");
        reveal_strlit("fancontroller");
    }
    match home {
        Some(h) => {
            let c = join_path(h, ".config");
            join_path(c.as_str(), "fancontroller")
        },
        None => String::from_str("/tmp/fancontroller"),
    }
}

/// The file of the custom fan labels.
pub fn config_path(config_dir: &str) -> (p: String)
    ensures
        p@ == join_spec(config_dir@, "config.json"@),
{
    proof {
        reveal_strlit("config.json");
    }
    join_path(config_dir, "config.json")
}

/// The file of the saved Custom profile.
pub fn custom_profile_path(config_dir: &str) -> (p: String)
    ensures
        p@ == join_spec(config_dir@, "custom_profile.json"@),
{
    proof {
        reveal_strlit("custom_profile.json");
    }
    join_path(config_dir, "custom_profile.json")
}

/// The marker of a finished permission setup.
pub fn setup_marker(home: Option<&str>) -> (p: String)
    ensures
        p@ == (match opt_view(home) {
            Some(h) => join_spec(h, ".config/fancontroller/.setup_version"@),
            None => "/tmp/fancontroller-setup"@,
        }),
{
    proof {
        reveal_strlit(".config/fancontroller/.setup_version");
    }
    match home {
        Some(h) => join_path(h, ".config/fancontroller/.setup_version"),
        None => String::from_str("/tmp/fancontroller-setup"),
    }
}

/// The length of the first line of `s` (up to the first newline).
pub open spec fn line_len(s: Seq<char>) -> nat
    decreases s.len(),
{
    if s.len() == 0 || s[0] == '\n' {
        0
    } else {
        1 + line_len(s.drop_first())
    }
}

pub proof fn lemma_line_len(s: Seq<char>)
    ensures
        line_len(s) <= s.len(),
        line_len(s) < s.len() ==> s[line_len(s) as int] == '\n',
        forall|k: int| 0 <= k < line_len(s) ==> s[k] != '\n',
    decreases s.len(),
{
    if s.len() > 0 && s[0] != '\n' {
        lemma_line_len(s.drop_first());
        assert forall|k: int| 0 <= k < line_len(s) implies s[k] != '\n' by {
            if k > 0 {
                assert(s[k] == s.drop_first()[k - 1]);
            }
        }
    }
}

/// The first line of `s` that starts with "Uid:", if any. (A carriage return
/// before a newline changes neither the prefix nor the tokens of a line.)
pub open spec fn uid_line(s: Seq<char>) -> Option<Seq<char>>
    decreases s.len(),
{
    if s.len() == 0 {
        None
    } else {
        let e = line_len(s);
        let line = s.take(e as int);
        if starts_with_spec(line, "Uid:"@) {
            Some(line)
        } else if e < s.len() {
            proof {
                lemma_line_len(s);
            }
            uid_line(s.skip(e + 1 as int))
        } else {
            None
        }
    }
}

/// The length of the first whitespace-free run of `s`.
pub open spec fn token_len(s: Seq<char>) -> nat
    decreases s.len(),
{
    if s.len() > 0 && !is_whitespace(s[0]) {
        1 + token_len(s.drop_first())
    } else {
        0
    }
}

/// The second whitespace-separated token of a line (what
/// `split_whitespace().nth(1)` gives), if any.
pub open spec fn second_token(line: Seq<char>) -> Option<Seq<char>> {
    let a = trim_start_spec(line);
    let b = trim_start_spec(a.skip(token_len(a) as int));
    if b.len() == 0 {
        None
    } else {
        Some(b.take(token_len(b) as int))
    }
}

/// The process runs as root: the real user id in `/proc/self/status` is 0.
pub open spec fn is_root_spec(status: Option<Seq<char>>) -> bool {
    match status {
        Some(s) => match uid_line(s) {
            Some(line) => second_token(line) == Some("0"@),
            None => false,
        },
        None => false,
    }
}

proof fn lemma_token_len_from(s: Seq<char>, i: int)
    requires
        0 <= i <= s.len(),
        forall|k: int| 0 <= k < i ==> !is_whitespace(#[trigger] s[k]),
    ensures
        token_len(s) == i + token_len(s.skip(i)),
    decreases i,
{
    if i > 0 {
        assert(s.skip(1) =~= s.drop_first());
        lemma_token_len_from(s.drop_first(), i - 1);
        assert(s.drop_first().skip(i - 1) =~= s.skip(i));
    } else {
        assert(s.skip(0) =~= s);
    }
}

/// The position of the first character at or after `from` that is whitespace
/// (`want_ws`) or not.
fn scan_class(s: &str, from: usize, want_ws: bool) -> (r: usize)
    requires
        from <= s@.len(),
    ensures
        from <= r <= s@.len(),
        forall|k: int| from <= k < r ==> is_whitespace(#[trigger] s@[k]) != want_ws,
        r < s@.len() ==> is_whitespace(s@[r as int]) == want_ws,
{
    let n = s.unicode_len();
    let mut i = from;
    while i < n && crate::text::char_is_whitespace(s.get_char(i)) != want_ws
        invariant
            n == s@.len(),
            from <= i <= n,
            forall|k: int| from <= k < i ==> is_whitespace(#[trigger] s@[k]) != want_ws,
        decreases n - i,
    {
        i = i + 1;
    }
    i
}

/// The second whitespace-separated token of a line.
fn second_token_of(line: &str) -> (r: Option<String>)
    ensures
        match r {
            Some(t) => second_token(line@) == Some(t@),
            None => second_token(line@) is None,
        },
{
    let n = line.unicode_len();
    let ghost s = line@;
    let a0 = scan_class(line, 0, false);
    let a1 = scan_class(line, a0, true);
    let b0 = scan_class(line, a1, false);
    let b1 = scan_class(line, b0, true);
    proof {
        crate::text::lemma_trim_start_skip(s, a0 as int);
        let sa = s.skip(a0 as int);
        if a0 < n {
            assert(!is_whitespace(sa[0]));
        }
        assert(trim_start_spec(sa) == sa);
        let a = trim_start_spec(s);
        assert forall|k: int| 0 <= k < a1 - a0 implies !is_whitespace(#[trigger] a[k]) by {
            assert(a[k] == s[a0 + k]);
        }
        lemma_token_len_from(a, a1 - a0);
        if a1 < n {
            assert(a.skip(a1 - a0)[0] == s[a1 as int]);
        }
        assert(token_len(a.skip(a1 - a0)) == 0);
        assert(a.skip(a1 - a0) =~= s.skip(a1 as int));
        let r1 = s.skip(a1 as int);
        assert forall|k: int| 0 <= k < b0 - a1 implies is_whitespace(#[trigger] r1[k]) by {
            assert(r1[k] == s[a1 + k]);
        }
        crate::text::lemma_trim_start_skip(r1, b0 - a1);
        let rb = r1.skip(b0 - a1);
        assert(rb =~= s.skip(b0 as int));
        if b0 < n {
            assert(!is_whitespace(rb[0]));
        }
        assert(trim_start_spec(rb) == rb);
        let b = trim_start_spec(r1);
        assert(b == rb);
        assert forall|k: int| 0 <= k < b1 - b0 implies !is_whitespace(#[trigger] b[k]) by {
            assert(b[k] == s[b0 + k]);
        }
        lemma_token_len_from(b, b1 - b0);
        if b1 < n {
            assert(b.skip(b1 - b0)[0] == s[b1 as int]);
        }
        assert(token_len(b.skip(b1 - b0)) == 0);
        assert(b.take(b1 - b0) =~= s.subrange(b0 as int, b1 as int));
    }
    if b0 >= n {
        None
    } else {
        Some(substring(line, b0, b1))
    }
}

/// Whether the process runs as root, from the contents of `/proc/self/status`.
pub fn is_root(status: Option<&str>) -> (b: bool)
    ensures
        b == is_root_spec(opt_view(status)),
{
    let s = match status {
        Some(s) => s,
        None => {
            return false;
        },
    };
    proof {
        reveal_strlit("Uid:");
        reveal_strlit("0");
    }
    let ghost sv = s@;
    assert(opt_view(status) == Some(sv));
    let n = s.unicode_len();
    let mut start: usize = 0;
    assert(s@.skip(0) =~= s@);
    while start < n
        invariant
            n == s@.len(),
            start <= n,
            sv == s@,
            opt_view(status) == Some(sv),
            uid_line(s@) == uid_line(s@.skip(start as int)),
        decreases n - start,
    {
        let ghost rest = s@.skip(start as int);
        let end = match find_char_from(s, '\n', start) {
            Some(e) => e,
            None => n,
        };
        proof {
            crate::text::lemma_find_from_props(s@, '\n', start as int);
            lemma_line_len(rest);
            assert forall|k: int| 0 <= k < end - start implies rest[k] != '\n' by {
                assert(rest[k] == s@[start + k]);
            }
            if end < n {
                assert(rest[end - start] == '\n');
            }
            if line_len(rest) < end - start {
                assert(rest[line_len(rest) as int] == '\n');
            }
            if line_len(rest) > end - start {
                assert(rest[end - start] != '\n');
            }
            assert(line_len(rest) == end - start);
            assert(rest.take(end - start) =~= s@.subrange(start as int, end as int));
        }
        let line = substring(s, start, end);
        proof {
            assert(line@ == rest.take(line_len(rest) as int));
        }
        if starts_with(line.as_str(), "Uid:") {
            proof {
                assert(uid_line(rest) == Some(line@));
            }
            let tok = second_token_of(line.as_str());
            return match tok {
                Some(t) => crate::text::str_eq(t.as_str(), "0"),
                None => false,
            };
        }
        if end >= n {
            proof {
                assert(uid_line(rest) is None);
            }
            return false;
        }
        proof {
            assert(rest.skip(end - start + 1) =~= s@.skip(end + 1));
            assert(uid_line(rest) == uid_line(rest.skip(line_len(rest) + 1 as int)));
        }
        start = end + 1;
    }
    proof {
        assert(s@.skip(start as int).len() == 0);
    }
    false
}

/// The daemon's pid as written in its pid file.
pub fn parse_pid(contents: &str) -> (r: Option<u32>)
    ensures
        r == (match parse_unsigned_spec(trim_spec(contents@), u32::MAX as nat) {
            Some(v) => Some(v as u32),
            None => None,
        }),
{
    let t = trim(contents);
    match parse_unsigned(t.as_str(), u32::MAX as u64) {
        Some(v) => Some(v as u32),
        None => None,
    }
}

/// The udev rule that gives the `hwmon` group write access to fan controls.
pub fn udev_rule() -> (s: String)
    ensures
        s@ == "SUBSYSTEM==\"hwmon\", KERNEL==\"hwmon[0-9]*\", ACTION==\"add\", GROUP=\"hwmon\", MODE=\"0660\"\n"@,
{
    String::from_str("SUBSYSTEM==\"hwmon\", KERNEL==\"hwmon[0-9]*\", ACTION==\"add\", GROUP=\"hwmon\", MODE=\"0660\"\n")
}

/// The sudoers rules that let `user` run exactly the two privileged NVML
/// subcommands of `exe` without a password.
pub open spec fn sudoers_spec(user: Seq<char>, exe: Seq<char>) -> Seq<char> {
    user + " ALL=(ALL) NOPASSWD: "@ + exe + " --gpu-set *\n"@ + user + " ALL=(ALL) NOPASSWD: "@ + exe
        + " --gpu-reset *\n"@
}

/// The sudoers rules for `user` (all users when unknown) and the program at
/// `exe` (`/usr/local/bin/fancontroller` when unknown).
pub fn sudoers_rules(user: Option<&str>, exe: Option<&str>) -> (s: String)
    ensures
        s@ == sudoers_spec(
            match opt_view(user) {
                Some(u) => u,
                None => "ALL"@,
            },
            match opt_view(exe) {
                Some(e) => e,
                None => "/usr/local/bin/fancontroller"@,
            },
        ),
{
    let u = match user {
        Some(u) => String::from_str(u),
        None => String::from_str("ALL"),
    };
    let e = match exe {
        Some(e) => String::from_str(e),
        None => String::from_str("/usr/local/bin/fancontroller"),
    };
    let mut s = u.clone();
    s.append(" ALL=(ALL) NOPASSWD: ");
    s.append(e.as_str());
    s.append(" --gpu-set *\n");
    s.append(u.as_str());
    s.append(" ALL=(ALL) NOPASSWD: ");
    s.append(e.as_str());
    s.append(" --gpu-reset *\n");
    s
}

/// The daemon and the GUI rescan the hardware every third second.
pub fn should_rescan(ticks: u32) -> (b: bool)
    ensures
        b == (ticks % 3 == 0),
{
    ticks % 3 == 0
}

} // verus!
