//! SSH login detection: accepted logins found in the authentication log
//! (with a regular expression) or in the journal of the ssh unit (by
//! splitting lines into words).
use vstd::prelude::*;
use crate::glob_match::strings_of;
use crate::report::{last_alert_pairs, overwrite_alert, Report, Round};
use crate::table::StringMap;
use crate::text::{
    chars_eq, chars_of, contains_chars, contains_seq, decimal, decimal_string, has_prefix, lines,
    seqs_of, split_lines, split_whitespace, starts_with_chars, string_of, utf8_lossy,
    utf8_lossy_string, utf8_str, words,
};

verus! {

#[verifier::external_type_specification]
#[verifier::external_body]
pub struct ExRegex(regex::Regex);

/// Whether `regex::Regex::new` accepts the pattern.
pub uninterp spec fn regex_compiles(pattern: Seq<char>) -> bool;

/// What `regex::Regex::captures` finds in `text` with the regex compiled
/// from `pattern`: the text of each capture group (group 0 being the
/// whole match), `None` for a group that did not take part, or no match.
pub uninterp spec fn regex_captures(pattern: Seq<char>, text: Seq<char>) -> Option<Seq<Option<Seq<char>>>>;

/// A compiled regular expression together with its pattern.
pub struct RegexPattern {
    source: String,
    compiled: regex::Regex,
}

impl RegexPattern {
    /// The pattern text.
    pub closed spec fn source(&self) -> Seq<char> {
        self.source@
    }
}

/// The text of an optional string.
pub open spec fn opt_text(o: Option<String>) -> Option<Seq<char>> {
    match o {
        Some(s) => Some(s@),
        None => None,
    }
}

/// The texts of optional capture groups.
pub open spec fn groups_text(r: Option<Vec<Option<String>>>) -> Option<Seq<Option<Seq<char>>>> {
    match r {
        Some(v) => Some(v@.map_values(|o: Option<String>| opt_text(o))),
        None => None,
    }
}

/// Calls `regex::Regex::new`. Trusted: it succeeds exactly when
/// `regex_compiles` holds, and the result remembers the pattern.
#[verifier::external_body]
fn compile_regex(pattern: &str) -> (r: Option<RegexPattern>)
    ensures
        r.is_some() == regex_compiles(pattern@),
        r matches Some(p) ==> p.source() == pattern@,
{
    match regex::Regex::new(pattern) {
        Ok(compiled) => Some(RegexPattern { source: pattern.to_string(), compiled }),
        Err(_) => None,
    }
}

/// Calls `regex::Regex::captures` and reads out each group's text.
/// Trusted: the result is `regex_captures` of the pattern and text, and
/// a match always has group 0.
#[verifier::external_body]
fn capture_groups(re: &RegexPattern, text: &str) -> (r: Option<Vec<Option<String>>>)
    ensures
        groups_text(r) == regex_captures(re.source(), text@),
        r matches Some(gs) ==> gs@.len() >= 1 && gs@[0] is Some,
{
    re.compiled.captures(text).map(|c| c.iter().map(|m| m.map(|m| m.as_str().to_string())).collect())
}

/// The pattern of an accepted SSH login in the authentication log: the
/// sshd process id, then "Accepted", then the user after "for" and the
/// address after "from".
pub open spec fn login_pattern() -> Seq<char> {
    "sshd\\[(\\d+)\\].*Accepted.*for (\\w+) from ([\\d\\.]+)"@
}

/// Compiles the login pattern.
pub fn ssh_login_regex() -> (r: Option<RegexPattern>)
    ensures
        r.is_some() == regex_compiles(login_pattern()),
        r matches Some(p) ==> p.source() == login_pattern(),
{
    compile_regex("sshd\\[(\\d+)\\].*Accepted.*for (\\w+) from ([\\d\\.]+)")
}

/// The alert for a new SSH connection.
pub open spec fn login_alert(user: Seq<char>, ip: Seq<char>, pid: Seq<char>) -> Seq<char> {
    "Новое SSH-подключение: Пользователь: "@ + user + ", IP: "@ + ip + ", PID: "@ + pid
}

/// Builds the alert for a new SSH connection.
pub fn login_alert_text(user: &str, ip: &str, pid: &str) -> (r: String)
    ensures
        r@ == login_alert(user@, ip@, pid@),
{
    let mut r = String::from_str("Новое SSH-подключение: Пользователь: ");
    r.append(user);
    r.append(", IP: ");
    r.append(ip);
    r.append(", PID: ");
    r.append(pid);
    r
}

/// The alert for the capture groups of a login-pattern match: the user
/// (group 2), address (group 3) and process id (group 1), when all three
/// took part.
pub open spec fn groups_alert(gs: Seq<Option<Seq<char>>>) -> Option<Seq<char>> {
    if gs.len() > 3 && gs[1] is Some && gs[2] is Some && gs[3] is Some {
        Some(login_alert(gs[2]->0, gs[3]->0, gs[1]->0))
    } else {
        None
    }
}

/// The alert for one authentication-log line that the login pattern
/// matches.
pub open spec fn auth_line_alert(pattern: Seq<char>, line: Seq<char>) -> Option<Seq<char>> {
    match regex_captures(pattern, line) {
        Some(gs) => groups_alert(gs),
        None => None,
    }
}

/// Builds the alert from the capture groups of a login-pattern match.
pub fn alert_from_groups(gs: &Vec<Option<String>>) -> (r: Option<String>)
    ensures
        opt_text(r) == groups_alert(gs@.map_values(|o: Option<String>| opt_text(o))),
{
    let ghost g = gs@.map_values(|o: Option<String>| opt_text(o));
    if gs.len() > 3 {
        assert(g[1] == opt_text(gs@[1]));
        assert(g[2] == opt_text(gs@[2]));
        assert(g[3] == opt_text(gs@[3]));
        match (&gs[1], &gs[2], &gs[3]) {
            (Some(pid), Some(user), Some(ip)) => Some(login_alert_text(user.as_str(), ip.as_str(), pid.as_str())),
            _ => None,
        }
    } else {
        None
    }
}

/// The alert of the last line that has one.
pub open spec fn last_auth_alert(pattern: Seq<char>, ls: Seq<Seq<char>>) -> Option<Seq<char>>
    decreases ls.len(),
{
    if ls.len() == 0 {
        None
    } else {
        match auth_line_alert(pattern, ls.last()) {
            Some(a) => Some(a),
            None => last_auth_alert(pattern, ls.drop_last()),
        }
    }
}

/// The alert for one authentication-log line.
pub fn auth_line(re: &RegexPattern, line: &str) -> (r: Option<String>)
    ensures
        opt_text(r) == auth_line_alert(re.source(), line@),
{
    match capture_groups(re, line) {
        None => None,
        Some(gs) => alert_from_groups(&gs),
    }
}

/// The alerts for the authentication log: the alert of the last line
/// that reports an accepted login, under "ssh_detector".
pub fn auth_log_alerts(re: &RegexPattern, log: &str) -> (r: StringMap)
    ensures
        r.pairs() == last_alert_pairs("ssh_detector"@, last_auth_alert(re.source(), lines(log@))),
{
    let cs = chars_of(log);
    let ls = split_lines(cs.as_slice());
    let ghost all = seqs_of(ls@);
    let mut alerts = StringMap::new();
    let mut i: usize = 0;
    assert(all.take(0) =~= Seq::<Seq<char>>::empty());
    while i < ls.len()
        invariant
            all == seqs_of(ls@),
            all == lines(log@),
            i <= ls@.len(),
            alerts.pairs() == last_alert_pairs("ssh_detector"@, last_auth_alert(re.source(), all.take(i as int))),
        decreases ls@.len() - i,
    {
        assert(all.take(i + 1).drop_last() =~= all.take(i as int));
        assert(all.take(i + 1).last() == ls@[i as int]@);
        let line = string_of(ls[i].as_slice());
        match auth_line(re, line.as_str()) {
            Some(msg) => {
                overwrite_alert(&mut alerts, "ssh_detector", msg);
            },
            None => {},
        }
        i = i + 1;
    }
    assert(all.take(ls@.len() as int) =~= all);
    alerts
}

/// One reading of the authentication log after it changed: a gave-up
/// outcome when it is not UTF-8, nothing when no line reports an accepted
/// login, else the "ssh_detector" report.
pub fn auth_log_round(re: &RegexPattern, log: &[u8]) -> (r: Round)
    ensures
        !vstd::utf8::valid_utf8(log@) ==> r is BadOutput,
        vstd::utf8::valid_utf8(log@) ==> ({
            let last = last_auth_alert(re.source(), lines(vstd::utf8::decode_utf8(log@)));
            match r {
                Round::Send(report) => last is Some && report.module@ == "ssh_detector"@
                    && report.alerts.pairs() == last_alert_pairs("ssh_detector"@, last),
                Round::Skip => last is None,
                Round::BadOutput => false,
            }
        }),
{
    match utf8_str(log) {
        None => Round::BadOutput,
        Some(text) => {
            let alerts = auth_log_alerts(re, text.as_str());
            if alerts.is_empty() {
                Round::Skip
            } else {
                Round::Send(Report { module: String::from_str("ssh_detector"), alerts })
            }
        },
    }
}

} // verus!

verus! {

/// The position of the first word from position `i` on that starts with
/// `pre`.
pub open spec fn first_prefixed_from(ws: Seq<Seq<char>>, pre: Seq<char>, i: int) -> Option<int>
    decreases ws.len() - i,
{
    if i < 0 || i >= ws.len() {
        None
    } else if has_prefix(ws[i], pre) {
        Some(i)
    } else {
        first_prefixed_from(ws, pre, i + 1)
    }
}

/// The position of the first word from position `i` on equal to `key`.
pub open spec fn position_from(ws: Seq<Seq<char>>, key: Seq<char>, i: int) -> Option<int>
    decreases ws.len() - i,
{
    if i < 0 || i >= ws.len() {
        None
    } else if ws[i] == key {
        Some(i)
    } else {
        position_from(ws, key, i + 1)
    }
}

/// The process id in a journal line's words: the first word starting
/// with "sshd[", without that prefix and without a closing "]"; "unknown"
/// when there is no such word or it does not end in "]".
pub open spec fn pid_field(ws: Seq<Seq<char>>) -> Seq<char> {
    match first_prefixed_from(ws, "sshd["@, 0) {
        Some(j) => {
            let rest = ws[j].subrange("sshd["@.len() as int, ws[j].len() as int);
            if rest.len() > 0 && rest.last() == ']' {
                rest.drop_last()
            } else {
                "unknown"@
            }
        },
        None => "unknown"@,
    }
}

/// The word after the first word equal to `key`, or "unknown".
pub open spec fn word_after(ws: Seq<Seq<char>>, key: Seq<char>) -> Seq<char> {
    match position_from(ws, key, 0) {
        Some(j) => if j + 1 < ws.len() { ws[j + 1] } else { "unknown"@ },
        None => "unknown"@,
    }
}

/// The alert for one journal line: a line mentioning "Accepted" reports
/// the user (after "for"), the address (after "from") and the process id.
pub open spec fn journal_line_alert(line: Seq<char>) -> Option<Seq<char>> {
    if contains_seq(line, "Accepted"@) {
        let ws = words(line);
        Some(login_alert(word_after(ws, "for"@), word_after(ws, "from"@), pid_field(ws)))
    } else {
        None
    }
}

/// The alert of the last journal line that has one.
pub open spec fn last_journal_alert(ls: Seq<Seq<char>>) -> Option<Seq<char>>
    decreases ls.len(),
{
    if ls.len() == 0 {
        None
    } else {
        match journal_line_alert(ls.last()) {
            Some(a) => Some(a),
            None => last_journal_alert(ls.drop_last()),
        }
    }
}

proof fn lemma_first_prefixed(ws: Seq<Seq<char>>, pre: Seq<char>, i: int)
    ensures
        first_prefixed_from(ws, pre, i) matches Some(j) ==> i <= j < ws.len() && has_prefix(ws[j], pre),
    decreases ws.len() - i,
{
    if 0 <= i < ws.len() && !has_prefix(ws[i], pre) {
        lemma_first_prefixed(ws, pre, i + 1);
    }
}

proof fn lemma_position(ws: Seq<Seq<char>>, key: Seq<char>, i: int)
    ensures
        position_from(ws, key, i) matches Some(j) ==> i <= j < ws.len() && ws[j] == key,
    decreases ws.len() - i,
{
    if 0 <= i < ws.len() && ws[i] != key {
        lemma_position(ws, key, i + 1);
    }
}

fn first_prefixed(ws: &Vec<Vec<char>>, pre: &[char]) -> (r: Option<usize>)
    ensures
        match r {
            Some(j) => first_prefixed_from(seqs_of(ws@), pre@, 0) == Some(j as int),
            None => first_prefixed_from(seqs_of(ws@), pre@, 0) is None,
        },
{
    let ghost s = seqs_of(ws@);
    let mut i: usize = 0;
    while i < ws.len()
        invariant
            s == seqs_of(ws@),
            i <= ws@.len(),
            first_prefixed_from(s, pre@, 0) == first_prefixed_from(s, pre@, i as int),
        decreases ws@.len() - i,
    {
        if starts_with_chars(ws[i].as_slice(), pre) {
            return Some(i);
        }
        i = i + 1;
    }
    None
}

fn position_of(ws: &Vec<Vec<char>>, key: &[char]) -> (r: Option<usize>)
    ensures
        match r {
            Some(j) => position_from(seqs_of(ws@), key@, 0) == Some(j as int),
            None => position_from(seqs_of(ws@), key@, 0) is None,
        },
{
    let ghost s = seqs_of(ws@);
    let mut i: usize = 0;
    while i < ws.len()
        invariant
            s == seqs_of(ws@),
            i <= ws@.len(),
            position_from(s, key@, 0) == position_from(s, key@, i as int),
        decreases ws@.len() - i,
    {
        if chars_eq(ws[i].as_slice(), key) {
            return Some(i);
        }
        i = i + 1;
    }
    None
}

fn word_after_of(ws: &Vec<Vec<char>>, key: &str) -> (r: String)
    ensures
        r@ == word_after(seqs_of(ws@), key@),
{
    let k = chars_of(key);
    proof {
        lemma_position(seqs_of(ws@), key@, 0);
    }
    match position_of(ws, k.as_slice()) {
        Some(j) => {
            if j < ws.len() - 1 {
                string_of(ws[j + 1].as_slice())
            } else {
                String::from_str("unknown")
            }
        },
        None => String::from_str("unknown"),
    }
}

fn pid_of(ws: &Vec<Vec<char>>) -> (r: String)
    ensures
        r@ == pid_field(seqs_of(ws@)),
{
    let pre = chars_of("sshd[");
    proof {
        lemma_first_prefixed(seqs_of(ws@), pre@, 0);
    }
    match first_prefixed(ws, pre.as_slice()) {
        Some(j) => {
            let w = &ws[j];
            let ghost rest = w@.subrange(pre@.len() as int, w@.len() as int);
            assert(w@.len() >= pre@.len());
            if w.len() > pre.len() && w[w.len() - 1] == ']' {
                let mut out: Vec<char> = Vec::new();
                let mut i: usize = pre.len();
                while i < w.len() - 1
                    invariant
                        pre@.len() <= i <= w@.len() - 1,
                        out@ == w@.subrange(pre@.len() as int, i as int),
                    decreases w@.len() - 1 - i,
                {
                    out.push(w[i]);
                    assert(out@ =~= w@.subrange(pre@.len() as int, i + 1));
                    i = i + 1;
                }
                assert(out@ =~= rest.drop_last());
                string_of(out.as_slice())
            } else {
                String::from_str("unknown")
            }
        },
        None => String::from_str("unknown"),
    }
}

/// The alert for one journal line, if it reports an accepted login.
pub fn journal_line(line: &[char]) -> (r: Option<String>)
    ensures
        opt_text(r) == journal_line_alert(line@),
{
    let accepted = chars_of("Accepted");
    if contains_chars(line, accepted.as_slice()) {
        let ws = split_whitespace(line);
        let user = word_after_of(&ws, "for");
        let ip = word_after_of(&ws, "from");
        let pid = pid_of(&ws);
        Some(login_alert_text(user.as_str(), ip.as_str(), pid.as_str()))
    } else {
        None
    }
}

/// The alerts for what the journal printed: the alert of the last line
/// that reports an accepted login, under "ssh_detector".
pub fn journal_alerts(stdout: &[u8]) -> (r: StringMap)
    ensures
        r.pairs() == last_alert_pairs("ssh_detector"@, last_journal_alert(lines(utf8_lossy(stdout@)))),
{
    let text = utf8_lossy_string(stdout);
    let cs = chars_of(text.as_str());
    let ls = split_lines(cs.as_slice());
    let ghost all = seqs_of(ls@);
    let mut alerts = StringMap::new();
    let mut i: usize = 0;
    assert(all.take(0) =~= Seq::<Seq<char>>::empty());
    while i < ls.len()
        invariant
            all == seqs_of(ls@),
            all == lines(utf8_lossy(stdout@)),
            i <= ls@.len(),
            alerts.pairs() == last_alert_pairs("ssh_detector"@, last_journal_alert(all.take(i as int))),
        decreases ls@.len() - i,
    {
        assert(all.take(i + 1).drop_last() =~= all.take(i as int));
        assert(all.take(i + 1).last() == ls@[i as int]@);
        match journal_line(ls[i].as_slice()) {
            Some(msg) => {
                overwrite_alert(&mut alerts, "ssh_detector", msg);
            },
            None => {},
        }
        i = i + 1;
    }
    assert(all.take(ls@.len() as int) =~= all);
    alerts
}

/// One successful journal query: nothing when no line reports an
/// accepted login, else the "ssh_detector" report.
pub fn journal_round(stdout: &[u8]) -> (r: Round)
    ensures
        ({
            let last = last_journal_alert(lines(utf8_lossy(stdout@)));
            match r {
                Round::Send(report) => last is Some && report.module@ == "ssh_detector"@
                    && report.alerts.pairs() == last_alert_pairs("ssh_detector"@, last),
                Round::Skip => last is None,
                Round::BadOutput => false,
            }
        }),
{
    let alerts = journal_alerts(stdout);
    if alerts.is_empty() {
        Round::Skip
    } else {
        Round::Send(Report { module: String::from_str("ssh_detector"), alerts })
    }
}

/// The arguments of the journal query after a pause of `delay` seconds:
/// the ssh unit's entries of the last `delay` seconds.
pub open spec fn journalctl_args_spec(delay: nat) -> Seq<Seq<char>> {
    seq!["-u"@, "ssh"@, "--since"@, decimal(delay) + " seconds ago"@, "|"@, "grep"@, "Accepted"@]
}

/// Builds the journal query's arguments.
pub fn journalctl_args(delay: u64) -> (r: Vec<String>)
    ensures
        strings_of(r@) == journalctl_args_spec(delay as nat),
{
    let mut since = decimal_string(delay);
    since.append(" seconds ago");
    let mut r: Vec<String> = Vec::new();
    r.push(String::from_str("-u"));
    r.push(String::from_str("ssh"));
    r.push(String::from_str("--since"));
    r.push(since);
    r.push(String::from_str("|"));
    r.push(String::from_str("grep"));
    r.push(String::from_str("Accepted"));
    assert(strings_of(r@) =~= journalctl_args_spec(delay as nat));
    r
}

/// The complaint printed when the journal query fails.
pub fn journal_error_message(stderr: &[u8]) -> (r: String)
    ensures
        r@ == "Error running journalctl: "@ + utf8_lossy(stderr@),
{
    let mut r = String::from_str("Error running journalctl: ");
    r.append(utf8_lossy_string(stderr).as_str());
    r
}

} // verus!

verus! {

/// A log line that the login pattern does not match leaves the login
/// found so far; a matching line becomes the login reported.
pub proof fn law_auth_push_line(pattern: Seq<char>, ls: Seq<Seq<char>>, l: Seq<char>)
    ensures
        auth_line_alert(pattern, l) is None ==> last_auth_alert(pattern, ls.push(l)) == last_auth_alert(
            pattern,
            ls,
        ),
        auth_line_alert(pattern, l) is Some ==> last_auth_alert(pattern, ls.push(l)) == auth_line_alert(
            pattern,
            l,
        ),
{
    assert(ls.push(l).drop_last() =~= ls);
}

/// The authentication log reports nothing exactly when no line matches
/// the login pattern with its three groups; otherwise it reports the
/// alert of the last such line.
pub proof fn law_auth_last_login(pattern: Seq<char>, ls: Seq<Seq<char>>)
    ensures
        (last_auth_alert(pattern, ls) is None) <==> (forall|i: int|
            0 <= i < ls.len() ==> #[trigger] auth_line_alert(pattern, ls[i]) is None),
        last_auth_alert(pattern, ls) matches Some(a) ==> exists|i: int|
            0 <= i < ls.len() && #[trigger] auth_line_alert(pattern, ls[i]) == Some(a) && forall|j: int|
                i < j < ls.len() ==> #[trigger] auth_line_alert(pattern, ls[j]) is None,
    decreases ls.len(),
{
    if ls.len() > 0 {
        let s = ls.drop_last();
        let n = ls.len() - 1;
        law_auth_last_login(pattern, s);
        assert forall|i: int| 0 <= i < s.len() implies #[trigger] auth_line_alert(pattern, s[i])
            == auth_line_alert(pattern, ls[i]) by {
            assert(s[i] == ls[i]);
        }
        if auth_line_alert(pattern, ls[n]) is Some {
            assert(auth_line_alert(pattern, ls[n]) == last_auth_alert(pattern, ls));
        } else {
            if last_auth_alert(pattern, s) is None {
                assert forall|i: int| 0 <= i < ls.len() implies #[trigger] auth_line_alert(pattern, ls[i])
                    is None by {
                    if i < n {
                        assert(auth_line_alert(pattern, s[i]) is None);
                    }
                }
            } else {
                let a = last_auth_alert(pattern, s)->0;
                let i = choose|i: int|
                    0 <= i < s.len() && #[trigger] auth_line_alert(pattern, s[i]) == Some(a) && forall|j: int|
                        i < j < s.len() ==> #[trigger] auth_line_alert(pattern, s[j]) is None;
                assert(auth_line_alert(pattern, ls[i]) == Some(a));
                assert forall|j: int| i < j < ls.len() implies #[trigger] auth_line_alert(pattern, ls[j])
                    is None by {
                    if j < n {
                        assert(auth_line_alert(pattern, s[j]) is None);
                    }
                }
                assert(!(forall|k: int| 0 <= k < ls.len() ==> #[trigger] auth_line_alert(pattern, ls[k]) is None));
            }
        }
    }
}

/// A journal line raises an alert exactly when it mentions "Accepted".
pub proof fn law_journal_line_accepted(line: Seq<char>)
    ensures
        (journal_line_alert(line) is Some) == contains_seq(line, "Accepted"@),
{
}

/// A journal line without "Accepted" leaves the login found so far; a
/// line with it becomes the login reported.
pub proof fn law_journal_push_line(ls: Seq<Seq<char>>, l: Seq<char>)
    ensures
        !contains_seq(l, "Accepted"@) ==> last_journal_alert(ls.push(l)) == last_journal_alert(ls),
        contains_seq(l, "Accepted"@) ==> last_journal_alert(ls.push(l)) == journal_line_alert(l),
{
    assert(ls.push(l).drop_last() =~= ls);
}

/// The journal reports nothing exactly when no line mentions "Accepted";
/// otherwise it reports the alert of the last line that does.
pub proof fn law_journal_last_login(ls: Seq<Seq<char>>)
    ensures
        (last_journal_alert(ls) is None) <==> (forall|i: int|
            0 <= i < ls.len() ==> !contains_seq(#[trigger] ls[i], "Accepted"@)),
        last_journal_alert(ls) matches Some(a) ==> exists|i: int|
            0 <= i < ls.len() && contains_seq(#[trigger] ls[i], "Accepted"@) && journal_line_alert(ls[i])
                == Some(a) && forall|j: int| i < j < ls.len() ==> !contains_seq(#[trigger] ls[j], "Accepted"@),
    decreases ls.len(),
{
    if ls.len() > 0 {
        let s = ls.drop_last();
        let n = ls.len() - 1;
        law_journal_last_login(s);
        assert forall|i: int| 0 <= i < s.len() implies #[trigger] s[i] == ls[i] by {}
        if contains_seq(ls[n], "Accepted"@) {
            assert(journal_line_alert(ls[n]) == last_journal_alert(ls));
        } else {
            assert(journal_line_alert(ls[n]) is None);
            if last_journal_alert(s) is None {
                assert forall|i: int| 0 <= i < ls.len() implies !contains_seq(#[trigger] ls[i], "Accepted"@) by {
                    if i < n {
                        assert(!contains_seq(s[i], "Accepted"@));
                    }
                }
            } else {
                let a = last_journal_alert(s)->0;
                let i = choose|i: int|
                    0 <= i < s.len() && contains_seq(#[trigger] s[i], "Accepted"@) && journal_line_alert(s[i])
                        == Some(a) && forall|j: int| i < j < s.len() ==> !contains_seq(#[trigger] s[j], "Accepted"@);
                assert(contains_seq(ls[i], "Accepted"@));
                assert forall|j: int| i < j < ls.len() implies !contains_seq(#[trigger] ls[j], "Accepted"@) by {
                    if j < n {
                        assert(!contains_seq(s[j], "Accepted"@));
                    }
                }
                assert(!(forall|k: int| 0 <= k < ls.len() ==> !contains_seq(#[trigger] ls[k], "Accepted"@)));
            }
        }
    }
}

} // verus!
