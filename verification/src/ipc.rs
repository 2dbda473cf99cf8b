//! Messages between the control tools and the wallpaper daemon over its
//! Unix socket: the requests the tools send, how the daemon reads them, and
//! how the tools read the daemon's reply.

use vstd::prelude::*;
use vstd::utf8::{decode_utf8, encode_utf8_decode_utf8, valid_utf8};
use crate::text::{
    chars_eq_str, chars_of, lemma_split_on_basics, lemma_split_on_pair, push_str, split_chars,
    split_on, string_of, views,
};

verus! {

/// Path of the daemon's socket.
pub const WALLPAPER_ENGINE_SOCKET: &'static str = "/tmp/wallpaper-engine.sock";

/// Size of the buffer the daemon reads a request into.
pub const REQUEST_BUFFER_SIZE: usize = 255;

/// The characters of a vector of strings.
pub open spec fn string_views(v: Seq<String>) -> Seq<Seq<char>> {
    Seq::new(v.len(), |i: int| v[i]@)
}

/// A request as the daemon understands it.
pub enum Request {
    /// Set the wallpaper of `target` (an output name, or `all`).
    SetWallpaper { target: String, wallpaper: Option<String> },
    /// Describe the outputs.
    ListOutputs,
    /// Change an option (the daemon accepts it and does nothing).
    SetOption,
    /// Save the configuration (the daemon accepts it and does nothing).
    Save,
    /// Anything else.
    Unknown { command: String, args: Vec<String> },
}

/// The meaning of a request, over characters.
pub enum RequestView {
    SetWallpaper { target: Seq<char>, wallpaper: Option<Seq<char>> },
    ListOutputs,
    SetOption,
    Save,
    Unknown { command: Seq<char>, args: Seq<Seq<char>> },
}

impl Request {
    /// What the request means.
    pub open spec fn view(&self) -> RequestView {
        match self {
            Request::SetWallpaper { target, wallpaper } => RequestView::SetWallpaper {
                target: target@,
                wallpaper: match wallpaper {
                    Some(w) => Some(w@),
                    None => None,
                },
            },
            Request::ListOutputs => RequestView::ListOutputs,
            Request::SetOption => RequestView::SetOption,
            Request::Save => RequestView::Save,
            Request::Unknown { command, args } => RequestView::Unknown {
                command: command@,
                args: string_views(args@),
            },
        }
    }
}

/// The request made of a command and its arguments; the older daemon knows
/// only `set` and `list-outputs`.
pub open spec fn classify_request(
    command: Seq<char>,
    args: Seq<Seq<char>>,
    legacy: bool,
) -> RequestView {
    if command == "set"@ {
        RequestView::SetWallpaper {
            target: args[0],
            wallpaper: if args.len() >= 2 {
                Some(args[1])
            } else {
                None
            },
        }
    } else if command == "list-outputs"@ {
        RequestView::ListOutputs
    } else if !legacy && command == "option"@ {
        RequestView::SetOption
    } else if !legacy && command == "save"@ {
        RequestView::Save
    } else {
        RequestView::Unknown { command, args }
    }
}

/// How the daemon reads a message: the command is the text before the first
/// `:`, the arguments are the text after the last `:` split at `,`.
pub open spec fn spec_parse_request(msg: Seq<char>) -> RequestView {
    let parts = split_on(msg, ':');
    classify_request(parts[0], split_on(parts.last(), ','), false)
}

/// How the older daemon reads a message: the command is the text before the
/// first `>`, the arguments are the text after the last `>` split at `:`.
pub open spec fn spec_parse_legacy_request(msg: Seq<char>) -> RequestView {
    let parts = split_on(msg, '>');
    classify_request(parts[0], split_on(parts.last(), ':'), true)
}

fn classify(command: &[char], args: Vec<Vec<char>>, legacy: bool) -> (r: Request)
    requires
        args.len() >= 1,
    ensures
        r.view() == classify_request(command@, views(args@), legacy),
{
    assert(views(args@)[0] == args@[0]@);
    if chars_eq_str(command, "set") {
        let target = string_of(args[0].as_slice());
        let wallpaper = if args.len() >= 2 {
            assert(views(args@)[1] == args@[1]@);
            Some(string_of(args[1].as_slice()))
        } else {
            None
        };
        Request::SetWallpaper { target, wallpaper }
    } else if chars_eq_str(command, "list-outputs") {
        Request::ListOutputs
    } else if !legacy && chars_eq_str(command, "option") {
        Request::SetOption
    } else if !legacy && chars_eq_str(command, "save") {
        Request::Save
    } else {
        let mut strs: Vec<String> = Vec::new();
        let mut i: usize = 0;
        while i < args.len()
            invariant
                i <= args.len(),
                string_views(strs@) =~= views(args@).take(i as int),
            decreases args.len() - i,
        {
            let s = string_of(args[i].as_slice());
            assert(views(args@)[i as int] == args@[i as int]@);
            let ghost before = strs@;
            strs.push(s);
            assert(string_views(strs@) =~= string_views(before).push(s@));
            assert(views(args@).take(i + 1) =~= views(args@).take(i as int).push(views(args@)[i as int]));
            i = i + 1;
        }
        assert(views(args@).take(args.len() as int) =~= views(args@));
        Request::Unknown { command: string_of(command), args: strs }
    }
}

fn parse_with(msg: &str, cmd_sep: char, arg_sep: char, legacy: bool) -> (r: Request)
    ensures
        r.view() == ({
            let parts = split_on(msg@, cmd_sep);
            classify_request(parts[0], split_on(parts.last(), arg_sep), legacy)
        }),
{
    let chars = chars_of(msg);
    let parts = split_chars(chars.as_slice(), cmd_sep);
    proof {
        lemma_split_on_basics(chars@, cmd_sep);
    }
    let last = parts.len() - 1;
    assert(views(parts@)[0] == parts@[0]@);
    assert(views(parts@).last() == parts@[last as int]@);
    let args = split_chars(parts[last].as_slice(), arg_sep);
    proof {
        lemma_split_on_basics(parts@[last as int]@, arg_sep);
    }
    classify(parts[0].as_slice(), args, legacy)
}

/// Reads a request as the daemon does.
pub fn parse_request(msg: &str) -> (r: Request)
    ensures
        r.view() == spec_parse_request(msg@),
{
    parse_with(msg, ':', ',', false)
}

/// Reads a request as the older daemon does.
pub fn parse_legacy_request(msg: &str) -> (r: Request)
    ensures
        r.view() == spec_parse_legacy_request(msg@),
{
    parse_with(msg, '>', ':', true)
}

/// The request that sets `wallpaper` on `output`: `set:<output>,<wallpaper>`.
pub fn change_wallpaper_request(output: &str, wallpaper: &str) -> (res: String)
    ensures
        res@ == "set:"@ + output@ + ","@ + wallpaper@,
{
    let mut s = String::new();
    push_str(&mut s, "set:");
    push_str(&mut s, output);
    push_str(&mut s, ",");
    push_str(&mut s, wallpaper);
    s
}

/// The request that changes an option: `option:<setting>,<value>`.
pub fn option_request(setting: &str, value: &str) -> (res: String)
    ensures
        res@ == "option:"@ + setting@ + ","@ + value@,
{
    let mut s = String::new();
    push_str(&mut s, "option:");
    push_str(&mut s, setting);
    push_str(&mut s, ",");
    push_str(&mut s, value);
    s
}

/// The request that lists the outputs: `list-outputs>`.
pub fn list_outputs_request() -> (res: String)
    ensures
        res@ == "list-outputs>"@,
{
    let mut s = String::new();
    push_str(&mut s, "list-outputs>");
    s
}

/// The request that lists the wallpapers: `list-wallpapers>`.
pub fn list_wallpapers_request() -> (res: String)
    ensures
        res@ == "list-wallpapers>"@,
{
    let mut s = String::new();
    push_str(&mut s, "list-wallpapers>");
    s
}

/// The older tool's request that sets `wallpaper` on `output`: `set><output>:<wallpaper>`.
pub fn legacy_change_wallpaper_request(output: &str, wallpaper: &str) -> (res: String)
    ensures
        res@ == "set>"@ + output@ + ":"@ + wallpaper@,
{
    let mut s = String::new();
    push_str(&mut s, "set>");
    push_str(&mut s, output);
    push_str(&mut s, ":");
    push_str(&mut s, wallpaper);
    s
}

/// Decodes bytes as UTF-8: calls `String::from_utf8`, which the standard
/// library documents as failing exactly when the bytes are not valid UTF-8
/// and otherwise giving the text they encode.
#[verifier::external_body]
fn utf8_to_string(bytes: &[u8]) -> (res: Option<String>)
    ensures
        res is Some <==> valid_utf8(bytes@),
        res matches Some(s) ==> s@ == decode_utf8(bytes@),
{
    String::from_utf8(bytes.to_vec()).ok()
}

/// Whether `c` has the Unicode `White_Space` property, which is what
/// `char::is_whitespace` tests: tab, line feed, vertical tab, form feed,
/// carriage return, space, next line, no-break space, ogham space mark, the
/// spaces from en quad to hair space, line separator, paragraph separator,
/// narrow no-break space, medium mathematical space and ideographic space.
pub open spec fn spec_is_whitespace(c: char) -> bool {
    let n = c as u32;
    ||| 0x09 <= n <= 0x0d
    ||| n == 0x20
    ||| n == 0x85
    ||| n == 0xa0
    ||| n == 0x1680
    ||| 0x2000 <= n <= 0x200a
    ||| n == 0x2028
    ||| n == 0x2029
    ||| n == 0x202f
    ||| n == 0x205f
    ||| n == 0x3000
}

/// Whether `c` is whitespace, as `char::is_whitespace` says.
pub fn is_whitespace(c: char) -> (res: bool)
    ensures
        res == spec_is_whitespace(c),
{
    let n = c as u32;
    (0x09 <= n && n <= 0x0d) || n == 0x20 || n == 0x85 || n == 0xa0 || n == 0x1680 || (0x2000 <= n
        && n <= 0x200a) || n == 0x2028 || n == 0x2029 || n == 0x202f || n == 0x205f || n == 0x3000
}

/// The number of whitespace characters at the start of `s`.
pub open spec fn leading_ws(s: Seq<char>) -> nat
    decreases s.len(),
{
    if s.len() > 0 && spec_is_whitespace(s[0]) {
        1 + leading_ws(s.drop_first())
    } else {
        0
    }
}

/// The number of whitespace characters at the end of `s`.
pub open spec fn trailing_ws(s: Seq<char>) -> nat
    decreases s.len(),
{
    if s.len() > 0 && spec_is_whitespace(s.last()) {
        1 + trailing_ws(s.drop_last())
    } else {
        0
    }
}

/// `s` without leading and trailing whitespace, as `str::trim` gives it.
pub open spec fn spec_trim(s: Seq<char>) -> Seq<char> {
    let front = s.skip(leading_ws(s) as int);
    front.take(front.len() - trailing_ws(front))
}

proof fn lemma_leading_ws_bound(s: Seq<char>)
    ensures
        leading_ws(s) <= s.len(),
        forall|i: int| 0 <= i < leading_ws(s) ==> spec_is_whitespace(#[trigger] s[i]),
        leading_ws(s) < s.len() ==> !spec_is_whitespace(s[leading_ws(s) as int]),
    decreases s.len(),
{
    if s.len() > 0 && spec_is_whitespace(s[0]) {
        lemma_leading_ws_bound(s.drop_first());
        assert forall|i: int| 0 <= i < leading_ws(s) implies spec_is_whitespace(#[trigger] s[i]) by {
            if i > 0 {
                assert(s[i] == s.drop_first()[i - 1]);
            }
        }
        if leading_ws(s) < s.len() {
            assert(s[leading_ws(s) as int] == s.drop_first()[leading_ws(s.drop_first()) as int]);
        }
    }
}

proof fn lemma_trailing_ws_bound(s: Seq<char>)
    ensures
        trailing_ws(s) <= s.len(),
        forall|i: int| s.len() - trailing_ws(s) <= i < s.len() ==> spec_is_whitespace(#[trigger] s[i]),
        trailing_ws(s) < s.len() ==> !spec_is_whitespace(s[s.len() - trailing_ws(s) - 1]),
    decreases s.len(),
{
    if s.len() > 0 && spec_is_whitespace(s.last()) {
        lemma_trailing_ws_bound(s.drop_last());
        assert forall|i: int| s.len() - trailing_ws(s) <= i < s.len() implies spec_is_whitespace(#[trigger] s[i]) by {
            if i < s.len() - 1 {
                assert(s[i] == s.drop_last()[i]);
            }
        }
        if trailing_ws(s) < s.len() {
            assert(s[s.len() - trailing_ws(s) - 1] == s.drop_last()[s.drop_last().len() - trailing_ws(s.drop_last()) - 1]);
        }
    }
}

/// Characters whose first `k` are whitespace and whose `k`-th is not have `k` leading ones.
proof fn lemma_leading_ws_is(s: Seq<char>, k: int)
    requires
        0 <= k <= s.len(),
        forall|i: int| 0 <= i < k ==> spec_is_whitespace(#[trigger] s[i]),
        k < s.len() ==> !spec_is_whitespace(s[k]),
    ensures
        leading_ws(s) == k,
    decreases k,
{
    if k > 0 {
        assert forall|i: int| 0 <= i < k - 1 implies spec_is_whitespace(#[trigger] s.drop_first()[i]) by {
            assert(s.drop_first()[i] == s[i + 1]);
        }
        if k < s.len() {
            assert(s.drop_first()[k - 1] == s[k]);
        }
        assert(spec_is_whitespace(s[0]));
        lemma_leading_ws_is(s.drop_first(), k - 1);
    }
}

proof fn lemma_trailing_ws_is(s: Seq<char>, k: int)
    requires
        0 <= k <= s.len(),
        forall|i: int| s.len() - k <= i < s.len() ==> spec_is_whitespace(#[trigger] s[i]),
        k < s.len() ==> !spec_is_whitespace(s[s.len() - k - 1]),
    ensures
        trailing_ws(s) == k,
    decreases k,
{
    if k > 0 {
        let t = s.drop_last();
        assert forall|i: int| t.len() - (k - 1) <= i < t.len() implies spec_is_whitespace(#[trigger] t[i]) by {
            assert(t[i] == s[i]);
        }
        if k < s.len() {
            assert(t[t.len() - (k - 1) - 1] == s[s.len() - k - 1]);
        }
        assert(spec_is_whitespace(s[s.len() - 1]));
        lemma_trailing_ws_is(t, k - 1);
    }
}

/// `s` without leading and trailing whitespace.
pub fn trim_chars(s: &[char]) -> (res: Vec<char>)
    ensures
        res@ == spec_trim(s@),
{
    let n = s.len();
    let mut a: usize = 0;
    while a < n && is_whitespace(s[a])
        invariant
            a <= n,
            n == s@.len(),
            forall|i: int| 0 <= i < a ==> spec_is_whitespace(#[trigger] s@[i]),
        decreases n - a,
    {
        a = a + 1;
    }
    proof {
        lemma_leading_ws_is(s@, a as int);
    }
    let ghost front = s@.skip(a as int);
    let mut b: usize = n;
    while b > a && is_whitespace(s[b - 1])
        invariant
            a <= b <= n,
            n == s@.len(),
            front == s@.skip(a as int),
            forall|i: int| b <= i < n ==> spec_is_whitespace(#[trigger] s@[i]),
        decreases b - a,
    {
        b = b - 1;
    }
    proof {
        let k = (n - b) as int;
        assert forall|i: int| front.len() - k <= i < front.len() implies spec_is_whitespace(#[trigger] front[i]) by {
            assert(front[i] == s@[i + a]);
        }
        if k < front.len() {
            assert(front[front.len() - k - 1] == s@[b - 1]);
        }
        lemma_trailing_ws_is(front, k);
    }
    let mut res: Vec<char> = Vec::new();
    let mut i: usize = a;
    while i < b
        invariant
            a <= i <= b <= n,
            n == s@.len(),
            res@ =~= s@.subrange(a as int, i as int),
        decreases b - i,
    {
        res.push(s[i]);
        i = i + 1;
    }
    assert(res@ =~= spec_trim(s@));
    res
}

/// How reading the daemon's reply can fail.
#[derive(Debug, PartialEq, Eq, Structural)]
pub enum IpcError {
    /// Nothing was received: `Couldn't receive message.`
    NoMessage,
}

/// The text of the reply made of the `received` bytes: nothing received is
/// an error, otherwise the bytes are read as UTF-8 and trimmed.
pub fn decode_reply(received: &[u8]) -> (res: Result<String, IpcError>)
    requires
        received@.len() == 0 || valid_utf8(received@),
    ensures
        received@.len() == 0 ==> res == Err::<String, IpcError>(IpcError::NoMessage),
        received@.len() != 0 ==> (res matches Ok(s) && s@ == spec_trim(decode_utf8(received@))),
{
    if received.len() == 0 {
        return Err(IpcError::NoMessage);
    }
    match utf8_to_string(received) {
        Some(text) => {
            let chars = chars_of(text.as_str());
            let trimmed = trim_chars(chars.as_slice());
            Ok(string_of(trimmed.as_slice()))
        },
        None => {
            assert(false);
            Err(IpcError::NoMessage)
        },
    }
}

/// The message the daemon takes from its read buffer: none when nothing was
/// received, otherwise the whole buffer read as UTF-8 (bytes past the
/// received ones included).
pub fn socket_message(buffer: &[u8], received: usize) -> (res: Option<String>)
    requires
        received == 0 || valid_utf8(buffer@),
    ensures
        received == 0 ==> res is None,
        received != 0 ==> (res matches Some(s) && s@ == decode_utf8(buffer@)),
{
    if received == 0 {
        return None;
    }
    utf8_to_string(buffer)
}

/// Law: a `set` request whose output and wallpaper hold no `:` and no `,`
/// is read by the daemon as a `set` of that wallpaper on that output.
pub proof fn law_change_wallpaper_request_read_back(output: Seq<char>, wallpaper: Seq<char>)
    requires
        !output.contains(':'),
        !output.contains(','),
        !wallpaper.contains(':'),
        !wallpaper.contains(','),
    ensures
        spec_parse_request("set:"@ + output + ","@ + wallpaper) == (RequestView::SetWallpaper {
            target: output,
            wallpaper: Some(wallpaper),
        }),
{
    reveal_strlit("set:");
    reveal_strlit(",");
    reveal_strlit("set");
    let msg = "set:"@ + output + ","@ + wallpaper;
    let body = output + ","@ + wallpaper;
    assert(!body.contains(':')) by {
        if body.contains(':') {
            let k = choose|k: int| 0 <= k < body.len() && body[k] == ':';
            if k < output.len() {
                assert(output[k] == ':');
            } else if k > output.len() {
                assert(wallpaper[k - output.len() - 1] == ':');
            }
        }
    }
    let set_word = seq!['s', 'e', 't'];
    assert(!set_word.contains(':')) by {
        if set_word.contains(':') {
            let k = choose|k: int| 0 <= k < set_word.len() && set_word[k] == ':';
        }
    }
    assert(msg =~= set_word + seq![':'] + body);
    lemma_split_on_pair(set_word, body, ':');
    assert(body =~= output + seq![','] + wallpaper);
    lemma_split_on_pair(output, wallpaper, ',');
    assert("set"@ =~= set_word);
}

/// Law: the daemon reads the bytes the tools send back as the same request
/// text (what goes over the socket is the UTF-8 encoding of the request).
pub proof fn law_request_bytes_decode(request: Seq<char>)
    ensures
        valid_utf8(vstd::utf8::encode_utf8(request)),
        decode_utf8(vstd::utf8::encode_utf8(request)) == request,
{
    vstd::utf8::encode_utf8_valid_utf8(request);
    encode_utf8_decode_utf8(request);
}

/// Law: the older daemon reads a `set` request of the older tool, whose
/// output and wallpaper hold no `>` and no `:`, as a `set` of that wallpaper
/// on that output.
pub proof fn law_legacy_change_wallpaper_request_read_back(output: Seq<char>, wallpaper: Seq<char>)
    requires
        !output.contains('>'),
        !output.contains(':'),
        !wallpaper.contains('>'),
        !wallpaper.contains(':'),
    ensures
        spec_parse_legacy_request("set>"@ + output + ":"@ + wallpaper) == (RequestView::SetWallpaper {
            target: output,
            wallpaper: Some(wallpaper),
        }),
{
    reveal_strlit("set>");
    reveal_strlit(":");
    reveal_strlit("set");
    let msg = "set>"@ + output + ":"@ + wallpaper;
    let body = output + ":"@ + wallpaper;
    assert(!body.contains('>')) by {
        if body.contains('>') {
            let k = choose|k: int| 0 <= k < body.len() && body[k] == '>';
            if k < output.len() {
                assert(output[k] == '>');
            } else if k > output.len() {
                assert(wallpaper[k - output.len() - 1] == '>');
            }
        }
    }
    let set_word = seq!['s', 'e', 't'];
    assert(!set_word.contains('>')) by {
        if set_word.contains('>') {
            let k = choose|k: int| 0 <= k < set_word.len() && set_word[k] == '>';
        }
    }
    assert(msg =~= set_word + seq!['>'] + body);
    lemma_split_on_pair(set_word, body, '>');
    assert(body =~= output + seq![':'] + wallpaper);
    lemma_split_on_pair(output, wallpaper, ':');
    assert("set"@ =~= set_word);
}

/// Law: whatever the setting and value, the daemon reads an option request
/// as an option change.
pub proof fn law_option_request_read_back(setting: Seq<char>, value: Seq<char>)
    ensures
        spec_parse_request("option:"@ + setting + ","@ + value) == RequestView::SetOption,
{
    reveal_strlit("option:");
    reveal_strlit("option");
    reveal_strlit("set");
    reveal_strlit("list-outputs");
    let word = seq!['o', 'p', 't', 'i', 'o', 'n'];
    let rest = setting + ","@ + value;
    let msg = "option:"@ + setting + ","@ + value;
    assert(msg =~= word + seq![':'] + rest);
    assert(!word.contains(':')) by {
        if word.contains(':') {
            let k = choose|k: int| 0 <= k < word.len() && word[k] == ':';
        }
    }
    lemma_split_on_basics(word, ':');
    crate::text::lemma_split_on_sep(word, ':');
    lemma_split_on_prefix_first(word + seq![':'], rest, ':');
    assert(split_on(msg, ':')[0] == word);
    assert("option"@ =~= word);
    assert("set"@ != word) by {
        assert("set"@.len() != word.len());
    }
    assert("list-outputs"@ != word) by {
        assert("list-outputs"@.len() != word.len());
    }
}

/// Appending text keeps the first piece of a split.
proof fn lemma_split_on_prefix_first(t: Seq<char>, s: Seq<char>, sep: char)
    requires
        split_on(t, sep).len() >= 2,
    ensures
        split_on(t + s, sep).len() >= 2,
        split_on(t + s, sep)[0] == split_on(t, sep)[0],
    decreases s.len(),
{
    if s.len() == 0 {
        assert(t + s =~= t);
    } else {
        lemma_split_on_prefix_first(t, s.drop_last(), sep);
        assert((t + s).drop_last() =~= t + s.drop_last());
    }
}

} // verus!
