//! Helper logic of the tool handlers: selecting a line window out of file
//! content, shortening paths for display, choosing the working project,
//! naming actions and diagnostics, rendering hover fragments, and the
//! client-configuration templates of each transport.

use vstd::prelude::*;

verus! {

use vstd::string::StringExecFns;
use crate::cargo::strip_cr;
use crate::edits::{find_from, find_char_from};
use crate::paths::{parent_of, parent_chars, spec_file_name, file_name_chars};
use crate::project::TransportType;
use crate::text::{chars_to_string, dec_digits, is_match_at, match_at, replace_all, spec_replace,
    str_to_chars, str_views, u32_to_string, usize_to_string};

/// The lines of `s`: pieces between line feeds, one trailing carriage
/// return stripped from each, and no extra empty line after a trailing
/// line feed.
pub open spec fn split_lines(s: Seq<char>) -> Seq<Seq<char>>
    decreases s.len(),
    when true
    via split_lines_decreases
{
    if s.len() == 0 {
        Seq::empty()
    } else {
        let nl = find_from(s, '\n', 0);
        if nl == s.len() {
            seq![strip_cr(s)]
        } else {
            seq![strip_cr(s.take(nl))] + split_lines(s.skip(nl + 1))
        }
    }
}

#[via_fn]
proof fn split_lines_decreases(s: Seq<char>) {
    if s.len() > 0 {
        crate::edits::lemma_find_from(s, '\n', 0);
    }
}

/// The lines of the content, in order.
pub fn split_lines_of(content: &str) -> (r: Vec<String>)
    ensures
        str_views(r@) == split_lines(content@),
{
    let chars = str_to_chars(content);
    let n: usize = chars.len();
    let mut r: Vec<String> = Vec::new();
    let mut pos: usize = 0;
    proof {
        assert(str_views(r@) =~= Seq::<Seq<char>>::empty());
        assert(chars@.skip(0) =~= chars@);
    }
    while pos < n
        invariant
            pos <= n,
            n == chars@.len(),
            chars@ == content@,
            split_lines(content@) == str_views(r@) + split_lines(chars@.skip(pos as int)),
        decreases n - pos,
    {
        let ghost suffix = chars@.skip(pos as int);
        let nl = find_char_from(&chars, '\n', pos);
        proof {
            crate::edits::lemma_find_from(chars@, '\n', pos as int);
            crate::edits::lemma_find_from_shift(chars@, '\n', pos as int);
        }
        let piece_end: usize = nl;
        let mut piece: Vec<char> = Vec::new();
        let mut i: usize = pos;
        while i < piece_end
            invariant
                pos <= i <= piece_end <= chars@.len(),
                piece@ == chars@.subrange(pos as int, i as int),
            decreases piece_end - i,
        {
            piece.push(chars[i]);
            proof {
                assert(chars@.subrange(pos as int, i + 1) =~= chars@.subrange(
                    pos as int,
                    i as int,
                ).push(chars@[i as int]));
            }
            i = i + 1;
        }
        if piece.len() > 0 && piece[piece.len() - 1] == '\r' {
            piece.pop();
        }
        proof {
            let raw = if find_from(suffix, '\n', 0) == suffix.len() {
                suffix
            } else {
                suffix.take(find_from(suffix, '\n', 0))
            };
            assert(chars@.subrange(pos as int, piece_end as int) =~= raw);
            assert(piece@ == strip_cr(raw));
        }
        let ghost old_views = str_views(r@);
        r.push(chars_to_string(&piece));
        proof {
            assert(str_views(r@) =~= old_views + seq![piece@]);
        }
        if nl == n {
            proof {
                assert(chars@.skip(n as int).len() == 0);
                assert(str_views(r@) + split_lines(chars@.skip(n as int)) =~= str_views(r@));
            }
            return r;
        }
        proof {
            assert(suffix.skip(find_from(suffix, '\n', 0) + 1) =~= chars@.skip(nl + 1));
            assert(old_views + (seq![piece@] + split_lines(chars@.skip(nl + 1))) =~= (old_views
                + seq![piece@]) + split_lines(chars@.skip(nl + 1)));
        }
        pos = nl + 1;
    }
    proof {
        assert(chars@.skip(n as int).len() == 0);
        assert(str_views(r@) + Seq::<Seq<char>>::empty() =~= str_views(r@));
    }
    r
}

/// The lines joined with line feeds between them.
pub open spec fn join_nl(l: Seq<Seq<char>>) -> Seq<char>
    decreases l.len(),
{
    if l.len() == 0 {
        Seq::empty()
    } else if l.len() == 1 {
        l[0]
    } else {
        l[0] + seq!['\n'] + join_nl(l.skip(1))
    }
}

proof fn lemma_join_snoc(l: Seq<Seq<char>>, x: Seq<char>)
    ensures
        join_nl(l.push(x)) == if l.len() == 0 {
            x
        } else {
            join_nl(l) + seq!['\n'] + x
        },
    decreases l.len(),
{
    if l.len() == 0 {
        assert(l.push(x)[0] == x);
    } else {
        assert(l.push(x)[0] == l[0]);
        assert(l.push(x).skip(1) =~= l.skip(1).push(x));
        lemma_join_snoc(l.skip(1), x);
        if l.len() == 1 {
            assert(l.skip(1).len() == 0);
        } else {
            assert(l[0] + seq!['\n'] + (join_nl(l.skip(1)) + seq!['\n'] + x) =~= (l[0] + seq!['\n']
                + join_nl(l.skip(1))) + seq!['\n'] + x);
        }
    }
}

/// The selected line window of `ls`: `prefix` lines before the start and
/// `suffix` lines after the end are taken in, the window is clamped to the
/// last line, and a window that starts past its end selects nothing.
pub open spec fn spec_select_lines(
    ls: Seq<Seq<char>>,
    start_line: int,
    end_line: int,
    prefix: int,
    suffix: int,
) -> Option<Seq<char>> {
    if ls.len() == 0 {
        Some(Seq::empty())
    } else {
        let start = if start_line >= prefix {
            start_line - prefix
        } else {
            0
        };
        let last = ls.len() - 1;
        let end = if end_line + suffix >= last {
            last
        } else {
            end_line + suffix
        };
        if start > end {
            None
        } else {
            Some(join_nl(ls.subrange(start, end + 1)))
        }
    }
}

/// The lines of the content between `start_line` and `end_line` inclusive,
/// widened by `prefix` lines before and `suffix` lines after, joined with
/// line feeds; line numbers count from zero. Nothing where the window
/// starts past its end; empty content selects the empty text.
pub fn get_file_lines(
    content: &str,
    start_line: u32,
    end_line: u32,
    prefix: u8,
    suffix: u8,
) -> (r: Option<String>)
    ensures
        match r {
            Some(s) => spec_select_lines(
                split_lines(content@),
                start_line as int,
                end_line as int,
                prefix as int,
                suffix as int,
            ) == Some(s@),
            None => spec_select_lines(
                split_lines(content@),
                start_line as int,
                end_line as int,
                prefix as int,
                suffix as int,
            ) is None,
        },
{
    let lines = split_lines_of(content);
    if lines.len() == 0 {
        let empty_out = String::new();
        return Some(empty_out);
    }
    let start: usize = if start_line >= prefix as u32 {
        (start_line - prefix as u32) as usize
    } else {
        0
    };
    let last: usize = lines.len() - 1;
    let sum: u64 = end_line as u64 + suffix as u64;
    let end: usize = if sum >= last as u64 {
        last
    } else {
        sum as usize
    };
    if start > end {
        return None;
    }
    let ghost lv = str_views(lines@);
    let len: usize = lines.len();
    let mut out: String = String::new();
    let mut k: usize = start;
    proof {
        reveal_strlit("\n");
        assert(out@ =~= join_nl(lv.subrange(start as int, start as int)));
    }
    while k <= end
        invariant
            start <= k <= end + 1,
            end < len,
            len == lines@.len(),
            lv == str_views(lines@),
            out@ == join_nl(lv.subrange(start as int, k as int)),
        decreases end + 1 - k,
    {
        proof {
            reveal_strlit("\n");
            lemma_join_snoc(lv.subrange(start as int, k as int), lv[k as int]);
            assert(lv.subrange(start as int, k + 1) =~= lv.subrange(start as int, k as int).push(
                lv[k as int],
            ));
            assert(lv[k as int] == lines@[k as int]@);
        }
        if k > start {
            out.append("\n");
        }
        out.append(lines[k].as_str());
        proof {
            if k > start {
                assert(out@ =~= join_nl(lv.subrange(start as int, k as int)) + seq!['\n']
                    + lv[k as int]);
            }
            assert(out@ =~= join_nl(lv.subrange(start as int, k + 1)));
        }
        k = k + 1;
    }
    Some(out)
}

/// The display form of a path: a Windows device prefix is dropped, long
/// paths shrink to their last one or two components, backslashes become
/// slashes, and a path under the working directory shows as relative to it.
pub open spec fn spec_beautify(path: Seq<char>, current_dir: Option<Seq<char>>) -> Seq<char> {
    let cleaned = if is_match_at(path, "\\\\?\\"@, 0) {
        path.skip(4)
    } else {
        path
    };
    let name = spec_file_name(path);
    if name.len() > 0 && cleaned.len() > 50 {
        match parent_of(path) {
            Some(par) => {
                let gname = spec_file_name(par);
                if gname.len() > 0 {
                    "dir "@ + gname + "/"@ + name
                } else {
                    "dir "@ + name
                }
            },
            None => "dir "@ + name,
        }
    } else {
        let normalized = spec_replace(cleaned, "\\"@, "/"@);
        let relative = match current_dir {
            Some(cd) => {
                if is_match_at(path, cd, 0) && path.len() > cd.len() && path[cd.len() as int]
                    == '/' && path.len() > cd.len() + 1 {
                    Some(spec_replace(path.skip(cd.len() as int + 1), "\\"@, "/"@))
                } else {
                    None
                }
            },
            None => None,
        };
        match relative {
            Some(rel) => "dir ./"@ + rel,
            None => "dir "@ + normalized,
        }
    }
}

/// Copies `v[from..to]`.
fn subrange_chars(v: &Vec<char>, from: usize, to: usize) -> (r: Vec<char>)
    requires
        from <= to <= v@.len(),
    ensures
        r@ == v@.subrange(from as int, to as int),
{
    let mut r: Vec<char> = Vec::new();
    let mut i: usize = from;
    while i < to
        invariant
            from <= i <= to <= v@.len(),
            r@ == v@.subrange(from as int, i as int),
        decreases to - i,
    {
        r.push(v[i]);
        proof {
            assert(v@.subrange(from as int, i + 1) =~= v@.subrange(from as int, i as int).push(
                v@[i as int],
            ));
        }
        i = i + 1;
    }
    r
}

/// The display form of a path, against an optional working directory.
pub fn beautify_path(path: &str, current_dir: Option<&String>) -> (r: String)
    ensures
        r@ == spec_beautify(
            path@,
            match current_dir {
                Some(cd) => Some(cd@),
                None => None,
            },
        ),
{
    proof {
        reveal_strlit("\\\\?\\");
    }
    let chars = str_to_chars(path);
    let n: usize = chars.len();
    let prefix_pat = str_to_chars("\\\\?\\");
    let cleaned: Vec<char> = if n >= 4 && match_at(&chars, &prefix_pat, 0) {
        subrange_chars(&chars, 4, n)
    } else {
        proof {
            if n < 4 {
                assert(!is_match_at(chars@, "\\\\?\\"@, 0));
            }
        }
        subrange_chars(&chars, 0, n)
    };
    proof {
        if is_match_at(path@, "\\\\?\\"@, 0) {
            assert(cleaned@ =~= path@.skip(4));
        } else {
            assert(cleaned@ =~= path@);
        }
    }
    let name = file_name_chars(&chars);
    if name.len() > 0 && cleaned.len() > 50 {
        let mut out: String = chars_to_string(&str_to_chars("dir "));
        match parent_chars(&chars) {
            Some(par) => {
                let gname = file_name_chars(&par);
                if gname.len() > 0 {
                    let gs = chars_to_string(&gname);
                    out.append(gs.as_str());
                    out.append("/");
                }
            },
            None => {},
        }
        let ns = chars_to_string(&name);
        out.append(ns.as_str());
        proof {
            assert(out@ =~= spec_beautify(
                path@,
                match current_dir {
                    Some(cd) => Some(cd@),
                    None => None,
                },
            ));
        }
        return out;
    }
    let backslash = str_to_chars("\\");
    let slash = str_to_chars("/");
    proof {
        reveal_strlit("\\");
        reveal_strlit("/");
    }
    match current_dir {
        Some(cd) => {
            let cdc = str_to_chars(cd.as_str());
            let m: usize = cdc.len();
            if m < n && n - m > 1 && match_at(&chars, &cdc, 0) && chars[m] == '/' {
                let rel = subrange_chars(&chars, m + 1, n);
                proof {
                    assert(rel@ =~= path@.skip(cd@.len() as int + 1));
                }
                let rep = replace_all(&rel, &backslash, &slash);
                let mut out: String = chars_to_string(&str_to_chars("dir ./"));
                let reps = chars_to_string(&rep);
                out.append(reps.as_str());
                return out;
            }
            proof {
                if is_match_at(path@, cd@, 0) && path@.len() > cd@.len() && path@[cd@.len() as int]
                    == '/' && path@.len() > cd@.len() + 1 {
                    assert(n > m + 1);
                    assert(false);
                }
            }
            let rep = replace_all(&cleaned, &backslash, &slash);
            let mut out: String = chars_to_string(&str_to_chars("dir "));
            let reps = chars_to_string(&rep);
            out.append(reps.as_str());
            out
        },
        None => {
            let rep = replace_all(&cleaned, &backslash, &slash);
            let mut out: String = chars_to_string(&str_to_chars("dir "));
            let reps = chars_to_string(&rep);
            out.append(reps.as_str());
            out
        },
    }
}

/// The working project of a tool call: the explicitly named project, the
/// most recently used one, or the first available one, in that order.
pub fn select_project_name(
    explicit: Option<String>,
    last_used: Option<String>,
    first_available: Option<String>,
) -> (r: Option<String>)
    ensures
        r == (if explicit is Some {
            explicit
        } else if last_used is Some {
            last_used
        } else {
            first_available
        }),
{
    match explicit {
        Some(name) => Some(name),
        None => match last_used {
            Some(name) => Some(name),
            None => first_available,
        },
    }
}

/// The identifier of a pending action: the operation and the target, with
/// blanks and path separators of the target flattened to underscores.
pub fn generate_action_id(operation: &str, target: &str) -> (r: String)
    ensures
        r@ == operation@ + "_"@ + spec_replace(spec_replace(target@, " "@, "_"@), "::"@, "_"@),
{
    proof {
        reveal_strlit(" ");
        reveal_strlit("::");
        reveal_strlit("_");
    }
    let t = str_to_chars(target);
    let blank = str_to_chars(" ");
    let double_colon = str_to_chars("::");
    let underscore = str_to_chars("_");
    let step1 = replace_all(&t, &blank, &underscore);
    let step2 = replace_all(&step1, &double_colon, &underscore);
    let mut out: String = chars_to_string(&str_to_chars(operation));
    out.append("_");
    let s2 = chars_to_string(&step2);
    out.append(s2.as_str());
    out
}

/// The identifier of a stored diagnostic: its file with separators
/// flattened, then its line, then its column.
pub fn diagnostic_id(file_name: &str, line: usize, column: usize) -> (r: String)
    ensures
        r@ == "diagnostic_"@ + spec_replace(spec_replace(file_name@, "\\"@, "_"@), "/"@, "_"@)
            + "_"@ + dec_digits(line as nat) + "_line_"@ + dec_digits(column as nat),
{
    proof {
        reveal_strlit("\\");
        reveal_strlit("/");
        reveal_strlit("_");
    }
    let f = str_to_chars(file_name);
    let backslash = str_to_chars("\\");
    let slash = str_to_chars("/");
    let underscore = str_to_chars("_");
    let step1 = replace_all(&f, &backslash, &underscore);
    let step2 = replace_all(&step1, &slash, &underscore);
    let mut out: String = chars_to_string(&str_to_chars("diagnostic_"));
    let s2 = chars_to_string(&step2);
    out.append(s2.as_str());
    out.append("_");
    let ls = usize_to_string(line);
    out.append(ls.as_str());
    out.append("_line_");
    let cs = usize_to_string(column);
    out.append(cs.as_str());
    out
}

/// A hover fragment: plain text, or a fenced block naming its language.
#[derive(Clone, Debug)]
pub enum MarkedText {
    Plain(String),
    WithLanguage { language: String, value: String },
}

/// The rendering of a hover fragment.
pub open spec fn spec_marked(m: MarkedText) -> Seq<char> {
    match m {
        MarkedText::Plain(s) => s@,
        MarkedText::WithLanguage { language, value } => "```"@ + language@ + "```\n"@ + value@,
    }
}

/// Renders a hover fragment: plain text as it is, a language-tagged
/// fragment as a fenced block.
pub fn format_marked_string(marked: &MarkedText) -> (r: String)
    ensures
        r@ == spec_marked(*marked),
{
    match marked {
        MarkedText::Plain(s) => s.clone(),
        MarkedText::WithLanguage { language, value } => {
            let mut out: String = chars_to_string(&str_to_chars("```"));
            out.append(language.as_str());
            out.append("```\n");
            out.append(value.as_str());
            out
        },
    }
}

/// The host and port a transport listens on; the standard-stream transport
/// reports a placeholder.
pub fn address_information(transport: &TransportType) -> (r: (String, u16))
    ensures
        match transport {
            TransportType::Stdio => r.0@ == "stdio"@ && r.1 == 0,
            TransportType::Sse { host, port } => r.0@ == host@ && r.1 == port,
            TransportType::StreamableHttp { host, port } => r.0@ == host@ && r.1 == port,
        },
{
    match transport {
        TransportType::Stdio => (chars_to_string(&str_to_chars("stdio")), 0),
        TransportType::Sse { host, port } => (host.clone(), *port),
        TransportType::StreamableHttp { host, port } => (host.clone(), *port),
    }
}

/// The client-configuration template of a transport, with the host and port
/// marks still in place.
pub fn configuration_template(transport: &TransportType) -> (r: String)
    ensures
        match transport {
            TransportType::Stdio => r@
                == "{\n    \"mcpServers\": {\n        \"rust-devtools-mcp\": {\n            \"command\": \"rust-devtools-mcp\",\n            \"args\": [\"serve\", \"--transport\", \"stdio\"]\n        }\n    }\n}\n"@,
            TransportType::Sse { .. } => r@
                == "{\n    \"mcpServers\": {\n        \"rust-devtools-mcp\": {\n            \"url\": \"http://{{HOST}}:{{PORT}}/sse\"\n        }\n    }\n}\n"@,
            TransportType::StreamableHttp { .. } => r@
                == "{\n    \"mcpServers\": {\n        \"rust-devtools-mcp\": {\n            \"url\": \"http://{{HOST}}:{{PORT}}/mcp\"\n        }\n    }\n}\n"@,
        },
{
    match transport {
        TransportType::Stdio => chars_to_string(
            &str_to_chars(
                "{\n    \"mcpServers\": {\n        \"rust-devtools-mcp\": {\n            \"command\": \"rust-devtools-mcp\",\n            \"args\": [\"serve\", \"--transport\", \"stdio\"]\n        }\n    }\n}\n",
            ),
        ),
        TransportType::Sse { .. } => chars_to_string(
            &str_to_chars(
                "{\n    \"mcpServers\": {\n        \"rust-devtools-mcp\": {\n            \"url\": \"http://{{HOST}}:{{PORT}}/sse\"\n        }\n    }\n}\n",
            ),
        ),
        TransportType::StreamableHttp { .. } => chars_to_string(
            &str_to_chars(
                "{\n    \"mcpServers\": {\n        \"rust-devtools-mcp\": {\n            \"url\": \"http://{{HOST}}:{{PORT}}/mcp\"\n        }\n    }\n}\n",
            ),
        ),
    }
}

/// The client configuration of a transport: its template with the host and
/// port filled in.
pub fn mcp_configuration(transport: &TransportType) -> (r: String)
    ensures
        ({
            let tpl = match transport {
                TransportType::Stdio => "{\n    \"mcpServers\": {\n        \"rust-devtools-mcp\": {\n            \"command\": \"rust-devtools-mcp\",\n            \"args\": [\"serve\", \"--transport\", \"stdio\"]\n        }\n    }\n}\n"@,
                TransportType::Sse { .. } => "{\n    \"mcpServers\": {\n        \"rust-devtools-mcp\": {\n            \"url\": \"http://{{HOST}}:{{PORT}}/sse\"\n        }\n    }\n}\n"@,
                TransportType::StreamableHttp { .. } => "{\n    \"mcpServers\": {\n        \"rust-devtools-mcp\": {\n            \"url\": \"http://{{HOST}}:{{PORT}}/mcp\"\n        }\n    }\n}\n"@,
            };
            let host = match transport {
                TransportType::Stdio => "stdio"@,
                TransportType::Sse { host, .. } => host@,
                TransportType::StreamableHttp { host, .. } => host@,
            };
            let port = match transport {
                TransportType::Stdio => 0int,
                TransportType::Sse { port, .. } => port as int,
                TransportType::StreamableHttp { port, .. } => port as int,
            };
            r@ == spec_replace(
                spec_replace(tpl, "{{HOST}}"@, host),
                "{{PORT}}"@,
                dec_digits(port as nat),
            )
        }),
{
    proof {
        reveal_strlit("{{HOST}}");
        reveal_strlit("{{PORT}}");
    }
    let tpl = configuration_template(transport);
    let addr = address_information(transport);
    let tpl_chars = str_to_chars(tpl.as_str());
    let host_pat = str_to_chars("{{HOST}}");
    let port_pat = str_to_chars("{{PORT}}");
    let host_chars = str_to_chars(addr.0.as_str());
    let port_str = u32_to_string(addr.1 as u32);
    let port_chars = str_to_chars(port_str.as_str());
    let step1 = replace_all(&tpl_chars, &host_pat, &host_chars);
    let step2 = replace_all(&step1, &port_pat, &port_chars);
    chars_to_string(&step2)
}

} // verus!
