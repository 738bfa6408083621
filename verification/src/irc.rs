//! Parser for the tagged wire protocol: one line carries an optional
//! `@key=value;...` tag section, an optional `:nick!user@host` prefix, a
//! command word, an optional `#channel` and the remaining parameters.
//! The grammar is modelled by spec functions over `Seq<char>` and the
//! executable parser is proved to return exactly what the model says.

use vstd::prelude::*;

use crate::text::leading_in_class;
use crate::text::push_char;
use crate::text::scan_space_str;
use crate::text::vec_slice_string;

verus! {

/// The parts of one parsed line, at the specification level.
pub struct LineParts {
    pub tags: Seq<(Seq<char>, Seq<char>)>,
    pub nick: Option<Seq<char>>,
    pub command: Seq<char>,
    pub channel: Option<Seq<char>>,
    pub params: Option<Seq<char>>,
}

/// Index of the first occurrence of `c` at or after `i`, or the length.
pub open spec fn find_from(s: Seq<char>, i: int, c: char) -> int
    decreases s.len() - i when 0 <= i <= s.len()
{
    if i >= s.len() {
        i
    } else if s[i] == c {
        i
    } else {
        find_from(s, i + 1, c)
    }
}

/// The tag-section state machine, over the text after the leading `'@'`.
/// A `'='` in key position starts the value; a `';'` in value position
/// emits a pair and starts the next key; the first space ends the
/// section (emitting a pending pair); anything else extends the current
/// part. The result is the pair list and the offset where the scan
/// stopped.
pub open spec fn parse_tags_rec(
    t: Seq<char>,
    i: int,
    ks: int,
    ke: int,
    in_value: bool,
) -> (Seq<(Seq<char>, Seq<char>)>, int)
    decreases t.len() - i when 0 <= i <= t.len()
{
    if i >= t.len() {
        (Seq::empty(), i)
    } else {
        let c = t[i];
        if c == '=' && !in_value {
            parse_tags_rec(t, i + 1, ks, i, true)
        } else if c == ';' && in_value {
            let pair = (t.subrange(ks, ke), t.subrange(ke + 1, i));
            let rest = parse_tags_rec(t, i + 1, i + 1, 0, false);
            (seq![pair] + rest.0, rest.1)
        } else if c == ' ' {
            if in_value {
                (seq![(t.subrange(ks, ke), t.subrange(ke + 1, i))], i)
            } else {
                (Seq::empty(), i)
            }
        } else {
            parse_tags_rec(t, i + 1, ks, ke, in_value)
        }
    }
}

/// The prefix scanner: walks to the first space, remembering the nick
/// part delimited by `'!'` (or by `'@'` when no `'!'` came first).
/// `None` when the line ends before a space.
pub open spec fn parse_prefix_rec(
    s: Seq<char>,
    start: int,
    i: int,
    nick: Option<Seq<char>>,
    has_bang: bool,
) -> Option<(Option<Seq<char>>, int)>
    decreases s.len() - i when 0 <= i <= s.len()
{
    if i >= s.len() {
        None
    } else if s[i] == ' ' {
        Some((nick, i + 1))
    } else if s[i] == '!' {
        parse_prefix_rec(s, start, i + 1, Some(s.subrange(start, i)), true)
    } else if s[i] == '@' {
        parse_prefix_rec(
            s,
            start,
            i + 1,
            if has_bang {
                nick
            } else {
                Some(s.subrange(start, i))
            },
            has_bang,
        )
    } else {
        parse_prefix_rec(s, start, i + 1, nick, has_bang)
    }
}

/// The tag section of a line and the position after it.
pub open spec fn tags_result(s: Seq<char>) -> (Seq<(Seq<char>, Seq<char>)>, int) {
    if s.len() > 0 && s[0] == '@' {
        let r = parse_tags_rec(s.skip(1), 0, 0, 0, false);
        (r.0, if r.1 + 2 <= s.len() { r.1 + 2 } else { s.len() as int })
    } else {
        (Seq::empty(), 0)
    }
}

/// The prefix nick of a line starting at `p` and the position after it.
pub open spec fn prefix_result(s: Seq<char>, p: int) -> (Option<Seq<char>>, int) {
    if p < s.len() && s[p] == ':' {
        match parse_prefix_rec(s, p + 1, p + 1, None, false) {
            Some(r) => r,
            None => (None, p),
        }
    } else {
        (None, p)
    }
}

/// The channel part starting at `p` and the position after it.
pub open spec fn channel_result(s: Seq<char>, p: int) -> (Option<Seq<char>>, int) {
    if p < s.len() && s[p] == '#' {
        let e = find_from(s, p, ' ');
        (Some(s.subrange(p, e)), if e < s.len() { e + 1 } else { s.len() as int })
    } else {
        (None, p)
    }
}

/// The whole line model. `None` exactly when the command word is empty,
/// which is the one unrecoverable parse failure.
pub open spec fn parse_line_spec(s: Seq<char>) -> Option<LineParts> {
    let tr = tags_result(s);
    let pr = prefix_result(s, tr.1);
    let cmd_end = find_from(s, pr.1, ' ');
    let cmd = s.subrange(pr.1, cmd_end);
    if cmd.len() == 0 {
        None
    } else {
        let p3 = if cmd_end < s.len() { cmd_end + 1 } else { s.len() as int };
        let ch = channel_result(s, p3);
        let params = if ch.1 < s.len() { Some(s.skip(ch.1)) } else { None };
        Some(LineParts { tags: tr.0, nick: pr.0, command: cmd, channel: ch.0, params })
    }
}

/// One parsed line, as the executable parser hands it out.
pub struct ParsedLine {
    pub tags: Vec<(String, String)>,
    pub nick: Option<String>,
    pub command: String,
    pub channel: Option<String>,
    pub params: Option<String>,
}

/// Views of a vector of owned tag pairs.
pub open spec fn tag_views(v: Seq<(String, String)>) -> Seq<(Seq<char>, Seq<char>)> {
    v.map_values(|p: (String, String)| (p.0@, p.1@))
}

/// View of an optional owned string.
pub open spec fn opt_view(v: Option<String>) -> Option<Seq<char>> {
    match v {
        Some(s) => Some(s@),
        None => None,
    }
}

/// View of a [`ParsedLine`], for comparison with [`parse_line_spec`].
pub open spec fn line_view(p: ParsedLine) -> LineParts {
    LineParts {
        tags: tag_views(p.tags@),
        nick: opt_view(p.nick),
        command: p.command@,
        channel: opt_view(p.channel),
        params: opt_view(p.params),
    }
}

/// Executable counterpart of [`find_from`].
fn find_exec(v: &Vec<char>, i: usize, c: char) -> (r: usize)
    requires
        i <= v@.len(),
    ensures
        r == find_from(v@, i as int, c),
        i <= r <= v@.len(),
    decreases v@.len() - i,
{
    if i == v.len() {
        i
    } else if v[i] == c {
        i
    } else {
        find_exec(v, i + 1, c)
    }
}

/// Executable counterpart of [`parse_tags_rec`], pushing pairs onto `out`.
fn tags_exec(
    t: &Vec<char>,
    i: usize,
    ks: usize,
    ke: usize,
    in_value: bool,
    out: &mut Vec<(String, String)>,
) -> (end: usize)
    requires
        i <= t@.len(),
        !in_value ==> ks <= i,
        in_value ==> ks <= ke && ke < i,
    ensures
        tag_views(final(out)@) == tag_views(old(out)@) + parse_tags_rec(
            t@,
            i as int,
            ks as int,
            ke as int,
            in_value,
        ).0,
        end == parse_tags_rec(t@, i as int, ks as int, ke as int, in_value).1,
        end <= t@.len(),
    decreases t@.len() - i,
{
    let ghost spec_r = parse_tags_rec(t@, i as int, ks as int, ke as int, in_value);
    if i == t.len() {
        proof {
            assert(tag_views(out@) =~= tag_views(old(out)@) + spec_r.0);
        }
        return i;
    }
    let c = t[i];
    if c == '=' && !in_value {
        tags_exec(t, i + 1, ks, i, true, out)
    } else if c == ';' && in_value {
        let key = vec_slice_string(t, ks, ke);
        let val = vec_slice_string(t, ke + 1, i);
        out.push((key, val));
        let ghost mid = out@;
        let end = tags_exec(t, i + 1, i + 1, 0, false, out);
        proof {
            let rest = parse_tags_rec(t@, i + 1, i + 1, 0, false);
            assert(tag_views(mid) =~= tag_views(old(out)@).push((key@, val@)));
            assert(tag_views(out@) =~= tag_views(old(out)@) + spec_r.0);
        }
        end
    } else if c == ' ' {
        if in_value {
            let key = vec_slice_string(t, ks, ke);
            let val = vec_slice_string(t, ke + 1, i);
            out.push((key, val));
            proof {
                assert(tag_views(out@) =~= tag_views(old(out)@) + spec_r.0);
            }
        } else {
            proof {
                assert(tag_views(out@) =~= tag_views(old(out)@) + spec_r.0);
            }
        }
        i
    } else {
        tags_exec(t, i + 1, ks, ke, in_value, out)
    }
}

/// Executable counterpart of [`parse_prefix_rec`].
fn prefix_exec(
    v: &Vec<char>,
    start: usize,
    i: usize,
    nick: Option<String>,
    has_bang: bool,
) -> (r: Option<(Option<String>, usize)>)
    requires
        i <= v@.len(),
        start <= i,
    ensures
        match r {
            None => parse_prefix_rec(v@, start as int, i as int, opt_view(nick), has_bang)
                is None,
            Some(p) => parse_prefix_rec(v@, start as int, i as int, opt_view(nick), has_bang)
                == Some((opt_view(p.0), p.1 as int)) && p.1 <= v@.len(),
        },
    decreases v@.len() - i,
{
    if i == v.len() {
        return None;
    }
    let c = v[i];
    if c == ' ' {
        Some((nick, i + 1))
    } else if c == '!' {
        let n = vec_slice_string(v, start, i);
        prefix_exec(v, start, i + 1, Some(n), true)
    } else if c == '@' {
        if has_bang {
            prefix_exec(v, start, i + 1, nick, has_bang)
        } else {
            let n = vec_slice_string(v, start, i);
            prefix_exec(v, start, i + 1, Some(n), false)
        }
    } else {
        prefix_exec(v, start, i + 1, nick, has_bang)
    }
}

/// Parses one (already trimmed) line into its parts. Returns `None`
/// exactly when the line model does: the command word is empty.
pub fn parse_irc_line(v: &Vec<char>) -> (r: Option<ParsedLine>)
    ensures
        r is None <==> parse_line_spec(v@) is None,
        r matches Some(p) ==> parse_line_spec(v@) == Some(line_view(p)),
{
    let ghost s = v@;
    // tag section
    let mut tags: Vec<(String, String)> = Vec::new();
    let mut pos: usize = 0;
    if v.len() > 0 && v[0] == '@' {
        let mut t: Vec<char> = Vec::new();
        let mut k: usize = 1;
        while k < v.len()
            invariant
                1 <= k <= v@.len(),
                t@ == v@.subrange(1, k as int),
            decreases v@.len() - k,
        {
            t.push(v[k]);
            k = k + 1;
            proof {
                assert(t@ =~= v@.subrange(1, k as int));
            }
        }
        proof {
            assert(t@ =~= s.skip(1));
        }
        let end = tags_exec(&t, 0, 0, 0, false, &mut tags);
        if v.len() - end >= 2 {
            pos = end + 2;
        } else {
            pos = v.len();
        }
        proof {
            assert(tag_views(tags@) =~= Seq::<(Seq<char>, Seq<char>)>::empty() + tag_views(
                tags@,
            ));
            assert(tags_result(s) == (tag_views(tags@), pos as int));
        }
    } else {
        proof {
            assert(tags_result(s) == (tag_views(tags@), pos as int));
        }
    }
    // prefix
    let mut nick: Option<String> = None;
    if pos < v.len() && v[pos] == ':' {
        match prefix_exec(v, pos + 1, pos + 1, None, false) {
            Some((n, p)) => {
                nick = n;
                pos = p;
            },
            None => {
                nick = None;
            },
        }
    }
    proof {
        assert(prefix_result(s, tags_result(s).1) == (opt_view(nick), pos as int));
    }
    // command
    let cmd_end = find_exec(v, pos, ' ');
    if cmd_end == pos {
        proof {
            assert(parse_line_spec(s) is None);
        }
        return None;
    }
    let command = vec_slice_string(v, pos, cmd_end);
    let mut p3: usize = v.len();
    if cmd_end < v.len() {
        p3 = cmd_end + 1;
    }
    // channel
    let mut channel: Option<String> = None;
    let mut p4: usize = p3;
    if p3 < v.len() && v[p3] == '#' {
        let e = find_exec(v, p3, ' ');
        channel = Some(vec_slice_string(v, p3, e));
        if e < v.len() {
            p4 = e + 1;
        } else {
            p4 = v.len();
        }
    }
    proof {
        assert(channel_result(s, p3 as int) == (opt_view(channel), p4 as int));
    }
    // params
    let params: Option<String> = if p4 < v.len() {
        Some(vec_slice_string(v, p4, v.len()))
    } else {
        None
    };
    proof {
        assert(p4 < s.len() ==> params.unwrap()@ =~= s.skip(p4 as int));
    }
    let line = ParsedLine { tags, nick, command, channel, params };
    proof {
        assert(parse_line_spec(s) == Some(line_view(line)));
    }
    Some(line)
}

/// The unescaping of a tag value: `\:` `\s` `\\` `\r` `\n` map to `;`,
/// space, backslash, carriage return and newline; the ornament comma
/// maps to a plain comma; an unmatched backslash arms the escape state
/// until one of the five escape characters consumes it.
pub open spec fn unescape_rec(s: Seq<char>, i: int, esc: bool) -> Seq<char>
    decreases s.len() - i when 0 <= i <= s.len()
{
    if i >= s.len() {
        Seq::empty()
    } else {
        let c = s[i];
        if c == ':' && esc {
            seq![';'] + unescape_rec(s, i + 1, false)
        } else if c == 's' && esc {
            seq![' '] + unescape_rec(s, i + 1, false)
        } else if c == '\\' && esc {
            seq!['\\'] + unescape_rec(s, i + 1, false)
        } else if c == 'r' && esc {
            seq!['\r'] + unescape_rec(s, i + 1, false)
        } else if c == 'n' && esc {
            seq!['\n'] + unescape_rec(s, i + 1, false)
        } else if c == '\u{2E1D}' {
            seq![','] + unescape_rec(s, i + 1, esc)
        } else if c == '\\' {
            unescape_rec(s, i + 1, true)
        } else {
            seq![c] + unescape_rec(s, i + 1, esc)
        }
    }
}

/// The unescaped form of a whole tag value.
pub open spec fn unescape_spec(s: Seq<char>) -> Seq<char> {
    unescape_rec(s, 0, false)
}

fn unescape_push(v: &Vec<char>, i: usize, esc: bool, out: &mut String)
    requires
        i <= v@.len(),
    ensures
        final(out)@ == old(out)@ + unescape_rec(v@, i as int, esc),
    decreases v@.len() - i,
{
    if i == v.len() {
        proof {
            assert(out@ =~= old(out)@ + unescape_rec(v@, i as int, esc));
        }
        return ;
    }
    let c = v[i];
    if c == ':' && esc {
        push_char(out, ';');
        unescape_push(v, i + 1, false, out);
    } else if c == 's' && esc {
        push_char(out, ' ');
        unescape_push(v, i + 1, false, out);
    } else if c == '\\' && esc {
        push_char(out, '\\');
        unescape_push(v, i + 1, false, out);
    } else if c == 'r' && esc {
        push_char(out, '\r');
        unescape_push(v, i + 1, false, out);
    } else if c == 'n' && esc {
        push_char(out, '\n');
        unescape_push(v, i + 1, false, out);
    } else if c == '\u{2E1D}' {
        push_char(out, ',');
        unescape_push(v, i + 1, esc, out);
    } else if c == '\\' {
        unescape_push(v, i + 1, true, out);
    } else {
        push_char(out, c);
        unescape_push(v, i + 1, esc, out);
    }
    proof {
        assert(out@ =~= old(out)@ + unescape_rec(v@, i as int, esc));
    }
}

/// Unescapes one tag value, as the wire protocol's escaping defines it.
pub fn unescape(s: &str) -> (r: String)
    ensures
        r@ == unescape_spec(s@),
{
    let v = crate::text::str_to_chars(s);
    let mut out = String::new();
    unescape_push(&v, 0, false, &mut out);
    proof {
        assert(out@ =~= unescape_spec(s@));
    }
    out
}

/// The leading marker of an emote-action message body.
pub open spec fn action_prefix() -> Seq<char> {
    seq!['\u{1}', 'A', 'C', 'T', 'I', 'O', 'N', ' ']
}

/// What the message-text extraction returns: strips one leading `':'`,
/// trims leading whitespace, and unwraps an action marker down to its
/// inner text.
pub open spec fn extract_text_spec(s: Seq<char>) -> Seq<char> {
    let t = if s.len() > 0 && s[0] == ':' { s.drop_first() } else { s };
    let u = t.skip(leading_in_class(t, false));
    if u.len() >= 8 && u.subrange(0, 8) == action_prefix() && u[u.len() - 1] == '\u{1}' {
        u.subrange(8, u.len() - 1)
    } else {
        u
    }
}

/// Extracts the message text of a parameter section.
pub fn extract_message_text(message_text: &str) -> (r: &str)
    ensures
        r@ == extract_text_spec(message_text@),
{
    let s = message_text;
    let n = s.unicode_len();
    let mut start: usize = 0;
    if n > 0 && s.get_char(0) == ':' {
        start = 1;
    }
    let ghost t = if s@.len() > 0 && s@[0] == ':' { s@.drop_first() } else { s@ };
    proof {
        assert(t =~= s@.skip(start as int));
        crate::text::lemma_leading_in_class_bounds(t, false);
        assert(s@.skip(start as int).skip(leading_in_class(t, false)) =~= s@.skip(
            start as int + leading_in_class(t, false),
        ));
    }
    let ws = scan_space_str(s, start);
    let ghost u = t.skip(leading_in_class(t, false));
    proof {
        assert(u =~= s@.skip(ws as int));
    }
    let is_action = n - ws >= 8 && s.get_char(ws) == '\u{1}' && s.get_char(ws + 1) == 'A'
        && s.get_char(ws + 2) == 'C' && s.get_char(ws + 3) == 'T' && s.get_char(ws + 4) == 'I'
        && s.get_char(ws + 5) == 'O' && s.get_char(ws + 6) == 'N' && s.get_char(ws + 7) == ' '
        && s.get_char(n - 1) == '\u{1}';
    proof {
        if n - ws >= 8 {
            assert(u.subrange(0, 8) == action_prefix() <==> (u[0] == '\u{1}' && u[1] == 'A'
                && u[2] == 'C' && u[3] == 'T' && u[4] == 'I' && u[5] == 'O' && u[6] == 'N'
                && u[7] == ' ')) by {
                if u[0] == '\u{1}' && u[1] == 'A' && u[2] == 'C' && u[3] == 'T' && u[4] == 'I'
                    && u[5] == 'O' && u[6] == 'N' && u[7] == ' ' {
                    assert(u.subrange(0, 8) =~= action_prefix());
                }
            }
        }
    }
    if is_action {
        let r = s.substring_char(ws + 8, n - 1);
        proof {
            assert(r@ =~= extract_text_spec(s@));
        }
        r
    } else {
        let r = s.substring_char(ws, n);
        proof {
            assert(r@ =~= extract_text_spec(s@));
        }
        r
    }
}

} // verus!
