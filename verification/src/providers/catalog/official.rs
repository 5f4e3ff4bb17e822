//! Finding the host's own language server: its processes in a process
//! listing and its ports in a socket listing.

use crate::domain::error::ErrorCategory;
use crate::text::{
    chars_eq_str, chars_of, contains, contains_str, is_whitespace, is_ws, parse_unsigned,
    parse_unsigned_chars, slice_range, starts_with, starts_with_str, string_from_chars, trim,
    trim_chars,
};
use vstd::prelude::*;

verus! {

/// Which host application a language server belongs to.
#[derive(Debug, Clone, Copy, PartialEq, Eq, Structural)]
pub enum OfficialCatalogSource {
    App,
    Ide,
}

/// A running language server, as its command line describes it.
#[derive(Debug, PartialEq, Eq)]
pub struct LanguageServerProcess {
    pub pid: u32,
    pub source: OfficialCatalogSource,
    pub csrf: String,
    pub configured_port: Option<u16>,
}

/// Pieces of `s` between separators (`sep`), keeping empty pieces.
pub open spec fn split_pieces(s: Seq<char>, newline: bool) -> Seq<Seq<char>>
    decreases s.len(),
{
    if s.len() == 0 {
        seq![Seq::empty()]
    } else {
        let rest = split_pieces(s.drop_last(), newline);
        let c = s.last();
        if (newline && c == '\n') || (!newline && is_ws(c)) {
            rest.push(Seq::empty())
        } else {
            rest.update(rest.len() - 1, rest.last().push(c))
        }
    }
}

pub open spec fn strip_cr(line: Seq<char>) -> Seq<char> {
    if line.len() > 0 && line.last() == '\r' {
        line.drop_last()
    } else {
        line
    }
}

/// `str::lines`: pieces between `\n`, without a final empty piece, each
/// without one trailing `\r`.
pub open spec fn spec_lines(s: Seq<char>) -> Seq<Seq<char>> {
    let parts = split_pieces(s, true);
    let kept = if parts.last().len() == 0 {
        parts.drop_last()
    } else {
        parts
    };
    kept.map_values(|l: Seq<char>| strip_cr(l))
}

pub open spec fn non_empty_pieces(s: Seq<Seq<char>>) -> Seq<Seq<char>>
    decreases s.len(),
{
    if s.len() == 0 {
        Seq::empty()
    } else {
        let rest = non_empty_pieces(s.drop_last());
        if s.last().len() > 0 {
            rest.push(s.last())
        } else {
            rest
        }
    }
}

/// `str::split_whitespace`.
pub open spec fn spec_tokens(s: Seq<char>) -> Seq<Seq<char>> {
    non_empty_pieces(split_pieces(s, false))
}

/// What a command line states so far.
pub struct ScanState {
    pub csrf: Option<Seq<char>>,
    pub port: Option<u16>,
    pub ide: bool,
}

/// A port value: a `u16` above zero.
pub open spec fn port_value(t: Seq<char>) -> Option<u16> {
    match parse_unsigned(t, 0xffff) {
        Some(p) => if p > 0 {
            Some(p as u16)
        } else {
            None
        },
        None => None,
    }
}

/// The value of flag `flag` at token `j`: the next token for `--flag value`,
/// the remainder for `--flag=value`.
pub open spec fn flag_value(t: Seq<Seq<char>>, j: int, flag: Seq<char>) -> Option<Seq<char>> {
    if t[j] == flag {
        if j + 1 < t.len() {
            Some(t[j + 1])
        } else {
            None
        }
    } else if starts_with(t[j], flag + "="@) {
        Some(t[j].subrange(flag.len() as int + 1, t[j].len() as int))
    } else {
        None
    }
}

/// Reads the flags of a command line from token `j` on; later flags win,
/// and a port of zero or out of range is ignored.
pub open spec fn scan_flags(t: Seq<Seq<char>>, j: int, st: ScanState) -> ScanState
    decreases t.len() - j,
{
    if j < 0 || j >= t.len() {
        st
    } else {
        let s1 = match flag_value(t, j, "--csrf_token"@) {
            Some(v) => ScanState { csrf: Some(v), ..st },
            None => st,
        };
        let s2 = match flag_value(t, j, "--https_server_port"@) {
            Some(v) => match port_value(v) {
                Some(p) => ScanState { port: Some(p), ..s1 },
                None => s1,
            },
            None => s1,
        };
        let s3 = match flag_value(t, j, "--subclient_type"@) {
            Some(v) => ScanState { ide: v == "ide"@, ..s2 },
            None => s2,
        };
        scan_flags(t, j + 1, s3)
    }
}

/// The language server a listing line describes: a line naming
/// `language_server` with a `--csrf_token` flag, starting with the process ID.
pub open spec fn line_process(line: Seq<char>) -> Option<(u32, OfficialCatalogSource, Seq<char>, Option<u16>)> {
    if contains(line, "language_server"@) && contains(line, "--csrf_token"@) {
        let t = spec_tokens(line);
        if t.len() == 0 {
            None
        } else {
            match parse_unsigned(t[0], u32::MAX as nat) {
                Some(pid) => {
                    let st = scan_flags(t, 1, ScanState { csrf: None, port: None, ide: false });
                    match st.csrf {
                        Some(csrf) => Some(
                            (
                                pid as u32,
                                if st.ide {
                                    OfficialCatalogSource::Ide
                                } else {
                                    OfficialCatalogSource::App
                                },
                                csrf,
                                st.port,
                            ),
                        ),
                        None => None,
                    }
                },
                None => None,
            }
        }
    }
    else {
        None
    }
}

pub open spec fn processes_of(lines: Seq<Seq<char>>) -> Seq<(u32, OfficialCatalogSource, Seq<char>, Option<u16>)>
    decreases lines.len(),
{
    if lines.len() == 0 {
        Seq::empty()
    } else {
        let rest = processes_of(lines.drop_last());
        match line_process(lines.last()) {
            Some(p) => rest.push(p),
            None => rest,
        }
    }
}

pub open spec fn process_view(p: LanguageServerProcess) -> (u32, OfficialCatalogSource, Seq<char>, Option<u16>) {
    (p.pid, p.source, p.csrf@, p.configured_port)
}

/// The port a socket-listing line names: after the last `:` (or the whole
/// line), without a leading `n` field tag; a `u16` above zero.
pub open spec fn line_port(line: Seq<char>) -> Option<u16> {
    let t = trim(line);
    let body = if t.len() > 0 && t[0] == 'n' {
        t.drop_first()
    } else {
        t
    };
    port_value(after_last_colon(body))
}

pub open spec fn after_last_colon(s: Seq<char>) -> Seq<char>
    decreases s.len(),
{
    if s.len() == 0 {
        s
    } else if s.last() == ':' {
        Seq::empty()
    } else {
        after_last_colon(s.drop_last()).push(s.last())
    }
}

/// Ports of a socket listing, each once, in order of first appearance.
pub open spec fn ports_of(lines: Seq<Seq<char>>) -> Seq<u16>
    decreases lines.len(),
{
    if lines.len() == 0 {
        Seq::empty()
    } else {
        let rest = ports_of(lines.drop_last());
        match line_port(lines.last()) {
            Some(p) => if rest.contains(p) {
                rest
            } else {
                rest.push(p)
            },
            None => rest,
        }
    }
}

pub open spec fn pieces_view(v: Seq<Vec<char>>) -> Seq<Seq<char>> {
    v.map_values(|x: Vec<char>| x@)
}

fn split_chars(s: &[char], newline: bool) -> (r: Vec<Vec<char>>)
    ensures
        pieces_view(r@) == split_pieces(s@, newline),
{
    let mut parts: Vec<Vec<char>> = Vec::new();
    let mut cur: Vec<char> = Vec::new();
    let mut i: usize = 0;
    proof {
        assert(s@.take(0) =~= Seq::<char>::empty());
        assert(pieces_view(parts@).push(cur@) =~= seq![Seq::<char>::empty()]);
    }
    while i < s.len()
        invariant
            i <= s@.len(),
            pieces_view(parts@).push(cur@) == split_pieces(s@.take(i as int), newline),
        decreases s.len() - i,
    {
        let c = s[i];
        let ghost before = pieces_view(parts@).push(cur@);
        proof {
            assert(s@.take(i as int + 1).drop_last() =~= s@.take(i as int));
        }
        if (newline && c == '\n') || (!newline && is_whitespace(c)) {
            let done = cur;
            let ghost d = done@;
            parts.push(done);
            cur = Vec::new();
            assert(pieces_view(parts@).push(cur@) =~= before.push(Seq::empty()));
        } else {
            let ghost pv = pieces_view(parts@);
            cur.push(c);
            assert(pieces_view(parts@) == pv);
            assert(pv.push(cur@) =~= before.update(before.len() - 1, before.last().push(c)));
        }
        i += 1;
    }
    proof {
        assert(s@.take(i as int) =~= s@);
    }
    let ghost pv = pieces_view(parts@);
    let ghost c = cur@;
    parts.push(cur);
    assert(pieces_view(parts@) =~= pv.push(c));
    parts
}

/// `str::lines`, on characters.
pub fn lines_of(s: &[char]) -> (r: Vec<Vec<char>>)
    ensures
        pieces_view(r@) == spec_lines(s@),
{
    let mut parts = split_chars(s, true);
    let ghost all = pieces_view(parts@);
    let n = parts.len();
    assert(n > 0) by {
        assert(split_pieces(s@, true).len() > 0) by {
            lemma_split_nonempty(s@, true);
        }
    }
    if parts[n - 1].len() == 0 {
        parts.pop();
        assert(pieces_view(parts@) =~= all.drop_last());
    }
    let ghost kept = pieces_view(parts@);
    let mut out: Vec<Vec<char>> = Vec::new();
    let mut i: usize = 0;
    while i < parts.len()
        invariant
            i <= parts@.len(),
            kept == pieces_view(parts@),
            pieces_view(out@) =~= kept.take(i as int).map_values(|l: Seq<char>| strip_cr(l)),
        decreases parts.len() - i,
    {
        let line = &parts[i];
        let k = line.len();
        let stripped = if k > 0 && line[k - 1] == '\r' {
            slice_range(line.as_slice(), 0, k - 1)
        } else {
            slice_range(line.as_slice(), 0, k)
        };
        proof {
            assert(line@.subrange(0, k as int) =~= line@);
            assert(line@.subrange(0, k - 1) =~= line@.drop_last());
        }
        let ghost before = pieces_view(out@);
        out.push(stripped);
        assert(pieces_view(out@) =~= before.push(strip_cr(kept[i as int])));
        assert(kept.take(i as int + 1).map_values(|l: Seq<char>| strip_cr(l)) =~= kept.take(i as int).map_values(
            |l: Seq<char>| strip_cr(l),
        ).push(strip_cr(kept[i as int])));
        i += 1;
    }
    assert(kept.take(i as int) =~= kept);
    out
}

proof fn lemma_split_nonempty(s: Seq<char>, newline: bool)
    ensures
        split_pieces(s, newline).len() > 0,
    decreases s.len(),
{
    if s.len() > 0 {
        lemma_split_nonempty(s.drop_last(), newline);
    }
}

/// `str::split_whitespace`, on characters.
pub fn tokens_of(s: &[char]) -> (r: Vec<Vec<char>>)
    ensures
        pieces_view(r@) == spec_tokens(s@),
{
    let parts = split_chars(s, false);
    let ghost all = pieces_view(parts@);
    let mut out: Vec<Vec<char>> = Vec::new();
    let mut i: usize = 0;
    proof {
        assert(all.take(0) =~= Seq::<Seq<char>>::empty());
    }
    while i < parts.len()
        invariant
            i <= parts@.len(),
            all == pieces_view(parts@),
            pieces_view(out@) == non_empty_pieces(all.take(i as int)),
        decreases parts.len() - i,
    {
        proof {
            assert(all.take(i as int + 1).drop_last() =~= all.take(i as int));
        }
        if parts[i].len() > 0 {
            let ghost before = pieces_view(out@);
            let piece = slice_range(parts[i].as_slice(), 0, parts[i].len());
            proof {
                assert(parts@[i as int]@.subrange(0, parts@[i as int]@.len() as int) =~= parts@[i as int]@);
            }
            out.push(piece);
            assert(pieces_view(out@) =~= before.push(all[i as int]));
        }
        i += 1;
    }
    assert(all.take(i as int) =~= all);
    out
}

fn flag_value_of(t: &Vec<Vec<char>>, j: usize, flag: &str) -> (r: Option<Vec<char>>)
    requires
        j < t@.len(),
    ensures
        r matches Some(v) ==> flag_value(pieces_view(t@), j as int, flag@) == Some(v@),
        r is None ==> flag_value(pieces_view(t@), j as int, flag@) is None,
{
    let tok = t[j].as_slice();
    assert(pieces_view(t@)[j as int] == t@[j as int]@);
    proof {
        reveal_strlit("=");
        assert(flag@ + "="@ =~= flag@.push('='));
    }
    if chars_eq_str(tok, flag) {
        if j < t.len() - 1 {
            assert(pieces_view(t@)[j + 1] == t@[j + 1]@);
            let n = slice_range(t[j + 1].as_slice(), 0, t[j + 1].len());
            proof {
                assert(t@[j + 1]@.subrange(0, t@[j + 1]@.len() as int) =~= t@[j + 1]@);
            }
            return Some(n);
        }
        return None;
    }
    let mut with_eq: Vec<char> = chars_of(flag);
    with_eq.push('=');
    if crate::text::starts_with_chars(tok, with_eq.as_slice()) {
        return Some(slice_range(tok, with_eq.len(), tok.len()));
    }
    None
}

fn port_value_of(v: &[char]) -> (r: Option<u16>)
    ensures
        r == port_value(v@),
{
    match parse_unsigned_chars(v, 0xffff) {
        Some(p) => if p > 0 {
            Some(p as u16)
        } else {
            None
        },
        None => None,
    }
}

fn process_of_line(line: &[char]) -> (r: Option<LanguageServerProcess>)
    ensures
        r matches Some(p) ==> line_process(line@) == Some(process_view(p)),
        r is None ==> line_process(line@) is None,
{
    if !(contains_str(line, "language_server") && contains_str(line, "--csrf_token")) {
        return None;
    }
    let t = tokens_of(line);
    if t.len() == 0 {
        return None;
    }
    let pid = match parse_unsigned_chars(t[0].as_slice(), u32::MAX as u64) {
        Some(p) => p as u32,
        None => {
            return None;
        },
    };
    let mut csrf: Option<Vec<char>> = None;
    let mut port: Option<u16> = None;
    let mut ide = false;
    let ghost tv = pieces_view(t@);
    let mut j: usize = 1;
    while j < t.len()
        invariant
            1 <= j <= t@.len(),
            tv == pieces_view(t@),
            scan_flags(tv, 1, ScanState { csrf: None, port: None, ide: false }) == scan_flags(
                tv,
                j as int,
                ScanState {
                    csrf: match csrf {
                        Some(c) => Some(c@),
                        None => None,
                    },
                    port,
                    ide,
                },
            ),
        decreases t.len() - j,
    {
        if let Some(v) = flag_value_of(&t, j, "--csrf_token") {
            csrf = Some(v);
        }
        if let Some(v) = flag_value_of(&t, j, "--https_server_port") {
            if let Some(p) = port_value_of(v.as_slice()) {
                port = Some(p);
            }
        }
        if let Some(v) = flag_value_of(&t, j, "--subclient_type") {
            ide = chars_eq_str(v.as_slice(), "ide");
        }
        j += 1;
    }
    match csrf {
        Some(c) => Some(
            LanguageServerProcess {
                pid,
                source: if ide {
                    OfficialCatalogSource::Ide
                } else {
                    OfficialCatalogSource::App
                },
                csrf: string_from_chars(c.as_slice()),
                configured_port: port,
            },
        ),
        None => None,
    }
}

/// The language servers of a process listing, in listing order; see `line_process`.
pub fn parse_language_server_processes(listing: &str) -> (r: Vec<LanguageServerProcess>)
    ensures
        r@.map_values(|p: LanguageServerProcess| process_view(p)) == processes_of(spec_lines(listing@)),
{
    let chars = chars_of(listing);
    let lines = lines_of(chars.as_slice());
    let ghost lv = pieces_view(lines@);
    let mut out: Vec<LanguageServerProcess> = Vec::new();
    let mut i: usize = 0;
    proof {
        assert(lv.take(0) =~= Seq::<Seq<char>>::empty());
        assert(out@.map_values(|p: LanguageServerProcess| process_view(p)) =~= Seq::empty());
    }
    while i < lines.len()
        invariant
            i <= lines@.len(),
            lv == pieces_view(lines@),
            out@.map_values(|p: LanguageServerProcess| process_view(p)) == processes_of(lv.take(i as int)),
        decreases lines.len() - i,
    {
        proof {
            assert(lv.take(i as int + 1).drop_last() =~= lv.take(i as int));
        }
        let ghost before = out@;
        match process_of_line(lines[i].as_slice()) {
            Some(p) => {
                out.push(p);
                assert(out@.map_values(|p: LanguageServerProcess| process_view(p)) =~= before.map_values(
                    |p: LanguageServerProcess| process_view(p),
                ).push(process_view(out@.last())));
            },
            None => {},
        }
        i += 1;
    }
    assert(lv.take(i as int) =~= lv);
    out
}

fn port_of_line(line: &[char]) -> (r: Option<u16>)
    ensures
        r == line_port(line@),
{
    let t = trim_chars(line);
    let body = if t.len() > 0 && t[0] == 'n' {
        slice_range(t.as_slice(), 1, t.len())
    } else {
        slice_range(t.as_slice(), 0, t.len())
    };
    proof {
        assert(t@.subrange(1, t@.len() as int) =~= t@.drop_first());
        assert(t@.subrange(0, t@.len() as int) =~= t@);
    }
    let mut k = body.len();
    while k > 0 && body[k - 1] != ':'
        invariant
            k <= body@.len(),
            forall|x: int| k <= x < body@.len() ==> body@[x] != ':',
        decreases k,
    {
        k -= 1;
    }
    let tail = slice_range(body.as_slice(), k, body.len());
    proof {
        lemma_after_last_colon(body@, k as int);
    }
    port_value_of(tail.as_slice())
}

proof fn lemma_after_last_colon(s: Seq<char>, k: int)
    requires
        0 <= k <= s.len(),
        k == 0 || s[k - 1] == ':',
        forall|x: int| k <= x < s.len() ==> s[x] != ':',
    ensures
        after_last_colon(s) == s.subrange(k, s.len() as int),
    decreases s.len(),
{
    if s.len() == 0 {
    } else if s.last() == ':' {
        assert(k == s.len());
        assert(s.subrange(k, s.len() as int) =~= Seq::<char>::empty());
    } else if k == s.len() {
        assert(s[k - 1] == ':');
    } else {
        lemma_after_last_colon(s.drop_last(), k);
        assert(s.subrange(k, s.len() as int) =~= s.drop_last().subrange(k, s.len() - 1).push(s.last()));
    }
}

/// The ports of a socket listing, each once, in order; see `line_port`.
pub fn parse_listening_ports(listing: &str) -> (r: Vec<u16>)
    ensures
        r@ == ports_of(spec_lines(listing@)),
{
    let chars = chars_of(listing);
    let lines = lines_of(chars.as_slice());
    let ghost lv = pieces_view(lines@);
    let mut out: Vec<u16> = Vec::new();
    let mut i: usize = 0;
    proof {
        assert(lv.take(0) =~= Seq::<Seq<char>>::empty());
    }
    while i < lines.len()
        invariant
            i <= lines@.len(),
            lv == pieces_view(lines@),
            out@ == ports_of(lv.take(i as int)),
        decreases lines.len() - i,
    {
        proof {
            assert(lv.take(i as int + 1).drop_last() =~= lv.take(i as int));
        }
        if let Some(p) = port_of_line(lines[i].as_slice()) {
            let mut seen = false;
            let mut k: usize = 0;
            while k < out.len()
                invariant
                    k <= out@.len(),
                    seen == (exists|x: int| 0 <= x < k && out@[x] == p),
                decreases out.len() - k,
            {
                if out[k] == p {
                    seen = true;
                }
                k += 1;
            }
            if !seen {
                out.push(p);
            }
        }
        i += 1;
    }
    assert(lv.take(i as int) =~= lv);
    out
}

} // verus!
