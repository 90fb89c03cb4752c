use std::collections::hash_map::DefaultHasher;
use std::hash::Hasher;
use vstd::prelude::*;
use vstd::std_specs::hash::DefaultHasherAdditionalSpecFns;
use vstd::string::StringSliceAdditionalSpecFns;
use vstd::utf8::encode_utf8;

use crate::text::{append_hex_u64, hex_chars};

verus! {

/// The fetched build log, kept for clients that ask for it.
#[derive(Debug, Clone)]
pub struct BuildLogs {
    pub content: String,
    /// Milliseconds since the Unix epoch.
    pub fetched_at: i64,
    pub content_hash: u64,
}

/// One line of a deployment's build log, as the Railway API reports it.
#[derive(Debug, Clone)]
pub struct BuildLogEntry {
    pub message: String,
    pub severity: String,
    pub timestamp: String,
}
/// Relies on `String::push`: appends one character.
#[verifier::external_body]
pub(crate) fn push_char(s: &mut String, c: char)
    ensures
        final(s)@ == old(s)@.push(c),
{
    s.push(c);
}

/// The characters of `s`, in order.
pub fn chars_of(s: &str) -> (r: Vec<char>)
    ensures
        r@ == s@,
{
    let mut out: Vec<char> = Vec::new();
    for c in it: s.chars()
        invariant
            it.seq() == s@,
            out@ == it.seq().subrange(0, it.index() as int),
    {
        out.push(c);
    }
    out
}

// ---------------------------------------------------------------------------
// Patterns
// ---------------------------------------------------------------------------

/// A terminal escape sequence: `ESC [`, digits and `;`, then a letter.
pub const ANSI_ESCAPE: &'static str = r"\x1b\[[0-9;]*[a-zA-Z]";

/// A message that reports the build time, such as `Build time: 42 seconds`.
pub const BUILD_TIME: &'static str = r"(?i)Build\s+time:\s+\d+";

/// A message that reports the start of the container.
pub const STARTING_CONTAINER: &'static str = r"(?i)Starting\s+Container";

/// What `regex::Regex::replace_all` gives for `text` with each match of
/// `pattern` replaced by `replacement`; `None` when `pattern` is not a regex.
pub uninterp spec fn regex_replaced(pattern: Seq<char>, text: Seq<char>, replacement: Seq<char>) -> Option<Seq<char>>;

/// What `regex::Regex::is_match` gives for `pattern` on `text`; `None` when
/// `pattern` is not a regex.
pub uninterp spec fn regex_matched(pattern: Seq<char>, text: Seq<char>) -> Option<bool>;

pub open spec fn string_view(s: Option<String>) -> Option<Seq<char>> {
    match s {
        Some(s) => Some(s@),
        None => None,
    }
}

/// Relies on `regex::Regex::new` and `Regex::replace_all`: `text` with each
/// match of `pattern` replaced, or `None` when `pattern` does not compile.
#[verifier::external_body]
pub(crate) fn regex_replace_all(pattern: &str, text: &str, replacement: &str) -> (r: Option<String>)
    ensures
        string_view(r) == regex_replaced(pattern@, text@, replacement@),
{
    match regex::Regex::new(pattern) {
        Ok(re) => Some(re.replace_all(text, replacement).into_owned()),
        Err(_) => None,
    }
}

/// Relies on `regex::Regex::new` and `Regex::is_match`: whether `pattern`
/// matches somewhere in `text`, or `None` when `pattern` does not compile.
#[verifier::external_body]
pub(crate) fn regex_is_match(pattern: &str, text: &str) -> (r: Option<bool>)
    ensures
        r == regex_matched(pattern@, text@),
{
    match regex::Regex::new(pattern) {
        Ok(re) => Some(re.is_match(text)),
        Err(_) => None,
    }
}

/// `text` without its terminal escape sequences.
pub open spec fn strip_ansi(text: Seq<char>) -> Seq<char> {
    match regex_replaced(ANSI_ESCAPE@, text, ""@) {
        Some(s) => s,
        None => text,
    }
}

/// `pattern` matches somewhere in `text`.
pub open spec fn matches_pattern(pattern: Seq<char>, text: Seq<char>) -> bool {
    regex_matched(pattern, text) == Some(true)
}

pub open spec fn mentions_build_time(clean: Seq<char>) -> bool {
    matches_pattern(BUILD_TIME@, clean)
}

pub open spec fn mentions_starting_container(clean: Seq<char>) -> bool {
    matches_pattern(STARTING_CONTAINER@, clean)
}

/// `text` with its terminal escape sequences removed.
pub fn strip_ansi_codes(text: &str) -> (r: String)
    ensures
        r@ == strip_ansi(text@),
{
    match regex_replace_all(ANSI_ESCAPE, text, "") {
        Some(s) => s,
        None => text.to_owned(),
    }
}

fn pattern_matches(pattern: &str, text: &str) -> (r: bool)
    ensures
        r == matches_pattern(pattern@, text@),
{
    match regex_is_match(pattern, text) {
        Some(b) => b,
        None => false,
    }
}

/// Whether the log ends at this message: it reports the build time or the
/// start of the container (escape sequences aside).
pub fn should_stop_at_message(message: &str) -> (r: bool)
    ensures
        r == (mentions_build_time(strip_ansi(message@)) || mentions_starting_container(
            strip_ansi(message@),
        )),
{
    let clean = strip_ansi_codes(message);
    pattern_matches(BUILD_TIME, clean.as_str()) || pattern_matches(STARTING_CONTAINER, clean.as_str())
}

// ---------------------------------------------------------------------------
// Whitespace and trimming
// ---------------------------------------------------------------------------

/// The characters with the Unicode `White_Space` property.
pub open spec fn is_white_space(c: char) -> bool {
    ('\u{9}' <= c && c <= '\u{d}') || c == ' ' || c == '\u{85}' || c == '\u{a0}' || c == '\u{1680}'
        || ('\u{2000}' <= c && c <= '\u{200a}') || c == '\u{2028}' || c == '\u{2029}' || c
        == '\u{202f}' || c == '\u{205f}' || c == '\u{3000}'
}

fn white_space(c: char) -> (r: bool)
    ensures
        r == is_white_space(c),
{
    ('\u{9}' <= c && c <= '\u{d}') || c == ' ' || c == '\u{85}' || c == '\u{a0}' || c == '\u{1680}'
        || ('\u{2000}' <= c && c <= '\u{200a}') || c == '\u{2028}' || c == '\u{2029}' || c
        == '\u{202f}' || c == '\u{205f}' || c == '\u{3000}'
}

pub open spec fn trim_chars_start(s: Seq<char>) -> Seq<char>
    decreases s.len(),
{
    if s.len() > 0 && is_white_space(s[0]) {
        trim_chars_start(s.drop_first())
    } else {
        s
    }
}

pub open spec fn trim_chars_end(s: Seq<char>) -> Seq<char>
    decreases s.len(),
{
    if s.len() > 0 && is_white_space(s.last()) {
        trim_chars_end(s.drop_last())
    } else {
        s
    }
}

/// `s` without whitespace at either end, as `str::trim` gives it.
pub open spec fn trim_chars(s: Seq<char>) -> Seq<char> {
    trim_chars_end(trim_chars_start(s))
}

/// Appends `v[from..to]` to `out`.
fn append_range(out: &mut String, v: &Vec<char>, from: usize, to: usize)
    requires
        from <= to <= v@.len(),
    ensures
        final(out)@ == old(out)@ + v@.subrange(from as int, to as int),
{
    let mut i = from;
    while i < to
        invariant
            from <= i <= to <= v@.len(),
            out@ == old(out)@ + v@.subrange(from as int, i as int),
        decreases to - i,
    {
        push_char(out, v[i]);
        assert(out@ =~= old(out)@ + v@.subrange(from as int, i + 1));
        i += 1;
    }
}

/// Appends `v` without whitespace at either end.
fn append_trimmed(out: &mut String, v: &Vec<char>)
    ensures
        final(out)@ == old(out)@ + trim_chars(v@),
{
    let n = v.len();
    let mut a: usize = 0;
    assert(v@.subrange(0, n as int) =~= v@);
    while a < n && white_space(v[a])
        invariant
            n == v@.len(),
            a <= n,
            trim_chars_start(v@.subrange(a as int, n as int)) == trim_chars_start(v@),
        decreases n - a,
    {
        assert(v@.subrange(a as int, n as int).drop_first() =~= v@.subrange(a + 1, n as int));
        a += 1;
    }
    let ghost head = v@.subrange(a as int, n as int);
    assert(trim_chars_start(head) == head);
    let mut b: usize = n;
    while b > a && white_space(v[b - 1])
        invariant
            n == v@.len(),
            a <= b <= n,
            head == v@.subrange(a as int, n as int),
            trim_chars_end(v@.subrange(a as int, b as int)) == trim_chars_end(head),
        decreases b - a,
    {
        assert(v@.subrange(a as int, b as int).drop_last() =~= v@.subrange(a as int, b - 1));
        b -= 1;
    }
    append_range(out, v, a, b);
}

// ---------------------------------------------------------------------------
// The log text
// ---------------------------------------------------------------------------

/// One line of the kept log: timestamp, severity, and the message without
/// escape sequences or surrounding whitespace.
pub open spec fn format_entry(e: BuildLogEntry) -> Seq<char> {
    e.timestamp@ + seq![' '] + e.severity@ + seq![' '] + trim_chars(strip_ansi(e.message@))
}

/// The lines kept from a build log: every entry up to the one that reports
/// the build time (kept) or the start of the container (left out).
pub open spec fn kept_lines(es: Seq<BuildLogEntry>) -> Seq<Seq<char>>
    decreases es.len(),
{
    if es.len() == 0 {
        Seq::empty()
    } else {
        let clean = strip_ansi(es[0].message@);
        if mentions_starting_container(clean) {
            Seq::empty()
        } else if mentions_build_time(clean) {
            seq![format_entry(es[0])]
        } else {
            seq![format_entry(es[0])] + kept_lines(es.drop_first())
        }
    }
}

/// `ls` joined with newlines.
pub open spec fn join_lines(ls: Seq<Seq<char>>) -> Seq<char>
    decreases ls.len(),
{
    if ls.len() == 0 {
        Seq::empty()
    } else if ls.len() == 1 {
        ls[0]
    } else {
        join_lines(ls.drop_last()) + seq!['\n'] + ls.last()
    }
}

/// The first line of the stored log: where the deployment's log can be read.
pub open spec fn log_header(project: Seq<char>, service: Seq<char>, environment: Seq<char>, deployment: Seq<char>) -> Seq<char> {
    "Railway Build Logs: https://railway.com/project/"@ + project + "/service/"@ + service
        + "?environmentId="@ + environment + "&id="@ + deployment + "#build\n\n"@
}

/// Formats one entry of the log.
pub fn format_entry_line(entry: &BuildLogEntry) -> (r: String)
    ensures
        r@ == format_entry(*entry),
{
    let mut line = entry.timestamp.clone();
    push_char(&mut line, ' ');
    line.append(entry.severity.as_str());
    push_char(&mut line, ' ');
    let clean = strip_ansi_codes(entry.message.as_str());
    let v = chars_of(clean.as_str());
    append_trimmed(&mut line, &v);
    assert(line@ =~= format_entry(*entry));
    line
}

/// The lines kept from a build log, formatted.
pub fn filter_build_logs(entries: &Vec<BuildLogEntry>) -> (r: Vec<String>)
    ensures
        r@.map_values(|l: String| l@) == kept_lines(entries@),
{
    let n = entries.len();
    let mut out: Vec<String> = Vec::new();
    let mut i: usize = 0;
    assert(entries@.subrange(0, n as int) =~= entries@);
    while i < n
        invariant
            n == entries@.len(),
            i <= n,
            out@.map_values(|l: String| l@) + kept_lines(entries@.subrange(i as int, n as int))
                == kept_lines(entries@),
        decreases n - i,
    {
        let ghost rest = entries@.subrange(i as int, n as int);
        assert(rest[0] == entries@[i as int]);
        assert(rest.drop_first() =~= entries@.subrange(i + 1, n as int));
        let entry = &entries[i];
        let clean = strip_ansi_codes(entry.message.as_str());
        if pattern_matches(STARTING_CONTAINER, clean.as_str()) {
            assert(out@.map_values(|l: String| l@) =~= out@.map_values(|l: String| l@) + kept_lines(rest));
            return out;
        }
        let line = format_entry_line(entry);
        let ghost before = out@.map_values(|l: String| l@);
        out.push(line);
        assert(out@.map_values(|l: String| l@) =~= before + seq![format_entry(*entry)]);
        if pattern_matches(BUILD_TIME, clean.as_str()) {
            assert(out@.map_values(|l: String| l@) =~= out@.map_values(|l: String| l@) + kept_lines(
                entries@.subrange(i + 1, i + 1),
            ));
            return out;
        }
        i += 1;
    }
    assert(kept_lines(entries@.subrange(n as int, n as int)) =~= Seq::<Seq<char>>::empty());
    assert(out@.map_values(|l: String| l@) =~= out@.map_values(|l: String| l@) + Seq::<Seq<char>>::empty());
    out
}

/// The stored log: the header, then the kept lines joined with newlines.
pub fn assemble_build_log(
    project_id: &str,
    service_id: &str,
    environment_id: &str,
    deployment_id: &str,
    entries: &Vec<BuildLogEntry>,
) -> (r: String)
    ensures
        r@ == log_header(project_id@, service_id@, environment_id@, deployment_id@) + join_lines(
            kept_lines(entries@),
        ),
{
    let lines = filter_build_logs(entries);
    let ghost ls = lines@.map_values(|l: String| l@);
    let mut content = "Railway Build Logs: https://railway.com/project/".to_owned();
    content.append(project_id);
    content.append("/service/");
    content.append(service_id);
    content.append("?environmentId=");
    content.append(environment_id);
    content.append("&id=");
    content.append(deployment_id);
    content.append("#build\n\n");
    let ghost header = content@;
    let mut i: usize = 0;
    while i < lines.len()
        invariant
            i <= lines@.len(),
            ls == lines@.map_values(|l: String| l@),
            content@ == header + join_lines(ls.subrange(0, i as int)),
        decreases lines@.len() - i,
    {
        let ghost sub = ls.subrange(0, i + 1);
        assert(sub.drop_last() =~= ls.subrange(0, i as int));
        if i > 0 {
            push_char(&mut content, '\n');
        } else {
            assert(ls.subrange(0, 0) =~= Seq::<Seq<char>>::empty());
        }
        content.append(lines[i].as_str());
        assert(content@ =~= header + join_lines(sub));
        i += 1;
    }
    assert(ls.subrange(0, i as int) =~= ls);
    content
}

/// What `DefaultHasher` gives for `content` hashed as a `str`: its bytes,
/// then the byte `0xff`.
pub open spec fn content_digest(content: Seq<u8>) -> u64 {
    DefaultHasher::spec_finish(seq![content, seq![0xffu8]])
}

/// The hash of the log text, as `str`'s `Hash` feeds it to `DefaultHasher`.
pub fn hash_content(content: &str) -> (r: u64)
    ensures
        r == content_digest(encode_utf8(content@)),
{
    let mut hasher = DefaultHasher::new();
    hasher.write(content.as_bytes());
    let end: [u8; 1] = [0xff];
    assert(end@ =~= seq![0xffu8]);
    let tail = end.as_slice();
    assert(tail@ =~= seq![0xffu8]);
    hasher.write(tail);
    assert(hasher@ =~= seq![content.spec_bytes(), seq![0xffu8]]);
    hasher.finish()
}

impl BuildLogs {
    /// The log `content`, fetched at `fetched_at`, with its hash.
    pub fn new(content: String, fetched_at: i64) -> (r: BuildLogs)
        ensures
            r.content@ == content@,
            r.fetched_at == fetched_at,
            r.content_hash == content_digest(encode_utf8(content@)),
    {
        let content_hash = hash_content(content.as_str());
        BuildLogs { content, fetched_at, content_hash }
    }
}

/// The entity tag of a log with this hash: its hexadecimal digits in quotes.
pub open spec fn etag_of(hash: u64) -> Seq<char> {
    seq!['"'] + hex_chars(hash as nat) + seq!['"']
}

pub fn etag(hash: u64) -> (r: String)
    ensures
        r@ == etag_of(hash),
{
    let mut tag = String::new();
    push_char(&mut tag, '"');
    append_hex_u64(&mut tag, hash);
    push_char(&mut tag, '"');
    assert(tag@ =~= etag_of(hash));
    tag
}

/// The instant, in milliseconds since the Unix epoch, that an RFC 2822 date
/// names, as chrono reads it.
pub uninterp spec fn rfc2822_millis(s: Seq<char>) -> Option<i64>;

/// Relies on `chrono::DateTime::parse_from_rfc2822` and `timestamp_millis`:
/// the instant the date names, or `None` when it is not an RFC 2822 date.
#[verifier::external_body]
pub(crate) fn parse_rfc2822_millis(s: &str) -> (r: Option<i64>)
    ensures
        r == rfc2822_millis(s@),
{
    match chrono::DateTime::parse_from_rfc2822(s) {
        Ok(t) => Some(t.timestamp_millis()),
        Err(_) => None,
    }
}

/// How a request for the build log is answered.
#[derive(Debug, Clone, Copy, PartialEq, Eq, Structural)]
pub enum BuildLogsReply {
    /// No log was fetched.
    Missing,
    /// The client's copy is current.
    NotModified,
    /// The client gets the log.
    Fresh,
}

/// The answer to a request for the build log, given its `If-None-Match` and
/// `If-Modified-Since` headers.
pub open spec fn reply_for(logs: Option<BuildLogs>, if_none_match: Option<Seq<char>>, if_modified_since: Option<Seq<char>>) -> BuildLogsReply {
    match logs {
        None => BuildLogsReply::Missing,
        Some(l) => {
            let tag_hit = if_none_match == Some(etag_of(l.content_hash));
            let date_hit = match if_modified_since {
                Some(d) => match rfc2822_millis(d) {
                    Some(t) => l.fetched_at <= t,
                    None => false,
                },
                None => false,
            };
            if tag_hit || date_hit {
                BuildLogsReply::NotModified
            } else {
                BuildLogsReply::Fresh
            }
        },
    }
}

pub open spec fn str_view(s: Option<&str>) -> Option<Seq<char>> {
    match s {
        Some(s) => Some(s@),
        None => None,
    }
}

/// Decides how a request for the build log is answered.
pub fn build_logs_reply(logs: &Option<BuildLogs>, if_none_match: Option<&str>, if_modified_since: Option<&str>) -> (r: BuildLogsReply)
    ensures
        r == reply_for(*logs, str_view(if_none_match), str_view(if_modified_since)),
{
    let l = match logs {
        Some(l) => l,
        None => {
            return BuildLogsReply::Missing;
        },
    };
    if let Some(tag) = if_none_match {
        if tag.to_owned() == etag(l.content_hash) {
            return BuildLogsReply::NotModified;
        }
    }
    if let Some(date) = if_modified_since {
        if let Some(t) = parse_rfc2822_millis(date) {
            if l.fetched_at <= t {
                return BuildLogsReply::NotModified;
            }
        }
    }
    BuildLogsReply::Fresh
}

} // verus!
