//! The broker's line protocol: requests, responses, and their JSON lines.
//!
//! A request line is `{"cmd":"write","path":P,"value":V}` or
//! `{"cmd":"run","program":P,"args":[A,...]}`; a response line is
//! `{"success":B,"error":E}` with `E` a string or `null`. Every line ends
//! with a newline. The JSON quoting of each string is serde_json's.
use vstd::prelude::*;
use crate::text::{digit_char, format_i64, signed_decimal};

verus! {

#[verifier::external_type_specification]
#[verifier::external_body]
pub struct ExJsonError(serde_json::Error);

/// The lowercase hexadecimal digit for a value below sixteen.
pub open spec fn hex_digit(d: int) -> char {
    if d < 10 {
        digit_char(d)
    } else if d == 10 {
        'a'
    } else if d == 11 {
        'b'
    } else if d == 12 {
        'c'
    } else if d == 13 {
        'd'
    } else if d == 14 {
        'e'
    } else {
        'f'
    }
}

/// How serde_json writes one character inside a JSON string: `"` and `\`
/// after a backslash; backspace, tab, line feed, form feed and carriage
/// return as `\b \t \n \f \r`; other characters below U+0020 as `\u00xx`
/// in lowercase hexadecimal; every other character as itself.
pub open spec fn json_char_escape(c: char) -> Seq<char> {
    if c == '"' {
        seq!['\\', '"']
    } else if c == '\\' {
        seq!['\\', '\\']
    } else if c == '\x08' {
        seq!['\\', 'b']
    } else if c == '\t' {
        seq!['\\', 't']
    } else if c == '\n' {
        seq!['\\', 'n']
    } else if c == '\x0C' {
        seq!['\\', 'f']
    } else if c == '\r' {
        seq!['\\', 'r']
    } else if (c as int) < 0x20 {
        seq!['\\', 'u', '0', '0', hex_digit(c as int / 16), hex_digit(c as int % 16)]
    } else {
        seq![c]
    }
}

/// The characters of `s`, each written as inside a JSON string.
pub open spec fn json_escaped(s: Seq<char>) -> Seq<char>
    decreases s.len(),
{
    if s.len() == 0 {
        Seq::empty()
    } else {
        json_escaped(s.drop_last()) + json_char_escape(s.last())
    }
}

/// The JSON string literal serde_json writes for a text.
pub open spec fn json_quoted(s: Seq<char>) -> Seq<char> {
    seq!['"'] + json_escaped(s) + seq!['"']
}

/// Relies on `serde_json::to_string` applied to a `str`: it writes the text
/// between double quotes, escaping each character by its table of escapes.
/// Its only failure is an I/O error of the writer, and the writer is a
/// `Vec<u8>`, so the result is always `Ok`.
#[verifier::external_body]
fn quote_json(s: &str) -> (r: Result<String, serde_json::Error>)
    ensures
        r is Ok,
        r is Ok ==> r->Ok_0@ == json_quoted(s@),
{
    serde_json::to_string(s)
}

fn quoted(s: &str) -> (r: String)
    ensures
        r@ == json_quoted(s@),
{
    match quote_json(s) {
        Ok(q) => q,
        Err(_) => {
            proof {
                assert(false);
            }
            String::new()
        },
    }
}

/// A privileged operation asked of the broker.
#[derive(Clone, Debug)]
pub enum Request {
    /// Overwrite the file at `path` with `value`.
    Write { path: String, value: String },
    /// Start `program` with `args` and wait for it to end.
    Run { program: String, args: Vec<String> },
}

/// The mathematical value of a [`Request`].
pub ghost enum RequestView {
    Write { path: Seq<char>, value: Seq<char> },
    Run { program: Seq<char>, args: Seq<Seq<char>> },
}

impl View for Request {
    type V = RequestView;

    open spec fn view(&self) -> RequestView {
        match self {
            Request::Write { path, value } => RequestView::Write { path: path@, value: value@ },
            Request::Run { program, args } => RequestView::Run {
                program: program@,
                args: args.deep_view(),
            },
        }
    }
}

/// The broker's answer to one request.
#[derive(Clone, Debug)]
pub struct Response {
    pub success: bool,
    pub error: Option<String>,
}

/// The mathematical value of a [`Response`].
pub ghost struct ResponseView {
    pub success: bool,
    pub error: Option<Seq<char>>,
}

impl View for Response {
    type V = ResponseView;

    open spec fn view(&self) -> ResponseView {
        ResponseView {
            success: self.success,
            error: match self.error {
                Some(e) => Some(e@),
                None => None,
            },
        }
    }
}

/// How a started program ended, or why it could not start.
#[derive(Clone, Debug)]
pub enum RunOutcome {
    /// It exited with this status code.
    Exited { code: i32 },
    /// It ended without an exit code (killed by a signal); `status` describes how.
    Terminated { status: String },
    /// It could not be started; `error` is the system's message.
    SpawnFailed { error: String },
}

/// The successful response.
pub open spec fn success_view() -> ResponseView {
    ResponseView { success: true, error: None }
}

/// A failed response carrying `msg`.
pub open spec fn failure_view(msg: Seq<char>) -> ResponseView {
    ResponseView { success: false, error: Some(msg) }
}

/// The response to a `Write` request, given what the file system reported.
pub open spec fn write_response_view(outcome: Result<(), Seq<char>>) -> ResponseView {
    match outcome {
        Ok(_) => success_view(),
        Err(e) => failure_view(e),
    }
}

/// The response to a `Run` request, given how the program ended: success on
/// exit code 0, `exit status: <code>` on any other, the system's message when
/// it did not start.
pub open spec fn run_response_view(outcome: RunOutcome) -> ResponseView {
    match outcome {
        RunOutcome::Exited { code } => if code == 0 {
            success_view()
        } else {
            failure_view("exit status: "@ + signed_decimal(code as int))
        },
        RunOutcome::Terminated { status } => failure_view("exit status: "@ + status@),
        RunOutcome::SpawnFailed { error } => failure_view(error@),
    }
}

impl Response {
    /// The successful response.
    pub fn ok() -> (r: Response)
        ensures
            r@ == success_view(),
    {
        Response { success: true, error: None }
    }

    /// A failed response carrying `msg`.
    pub fn failure(msg: String) -> (r: Response)
        ensures
            r@ == failure_view(msg@),
    {
        Response { success: false, error: Some(msg) }
    }
}

/// The response to a line that is not a valid request: `parse error: ` and
/// the parser's message.
pub fn parse_error_response(details: &str) -> (r: Response)
    ensures
        r@ == failure_view("parse error: "@ + details@),
{
    let msg = String::from_str("parse error: ").concat(details);
    Response::failure(msg)
}

/// The response to a `Write` request, given what the file system reported.
pub fn write_response(outcome: Result<(), String>) -> (r: Response)
    ensures
        r@ == write_response_view(
            match outcome {
                Ok(u) => Ok(u),
                Err(e) => Err(e@),
            },
        ),
{
    match outcome {
        Ok(_) => Response::ok(),
        Err(e) => Response::failure(e),
    }
}

/// The response to a `Run` request, given how the program ended.
pub fn run_response(outcome: RunOutcome) -> (r: Response)
    ensures
        r@ == run_response_view(outcome),
{
    match outcome {
        RunOutcome::Exited { code } => {
            if code == 0 {
                Response::ok()
            } else {
                let digits = format_i64(code as i64);
                let msg = String::from_str("exit status: ").concat(digits.as_str());
                Response::failure(msg)
            }
        },
        RunOutcome::Terminated { status } => {
            let msg = String::from_str("exit status: ").concat(status.as_str());
            Response::failure(msg)
        },
        RunOutcome::SpawnFailed { error } => Response::failure(error),
    }
}

/// The JSON line of a response.
pub open spec fn response_line(r: ResponseView) -> Seq<char> {
    "{\"success\":"@ + (if r.success {
        "true"@
    } else {
        "false"@
    }) + ",\"error\":"@ + match r.error {
        Some(e) => json_quoted(e),
        None => "null"@,
    } + "}\n"@
}

/// The JSON array of strings `args`, without spaces.
pub open spec fn json_string_list(args: Seq<Seq<char>>) -> Seq<char> {
    "["@ + json_string_items(args) + "]"@
}

/// The quoted strings of `args`, separated by commas.
pub open spec fn json_string_items(args: Seq<Seq<char>>) -> Seq<char>
    decreases args.len(),
{
    if args.len() == 0 {
        Seq::empty()
    } else if args.len() == 1 {
        json_quoted(args[0])
    } else {
        json_string_items(args.drop_last()) + ","@ + json_quoted(args.last())
    }
}

/// The JSON line of a request.
pub open spec fn request_line(r: RequestView) -> Seq<char> {
    match r {
        RequestView::Write { path, value } => "{\"cmd\":\"write\",\"path\":"@ + json_quoted(path)
            + ",\"value\":"@ + json_quoted(value) + "}\n"@,
        RequestView::Run { program, args } => "{\"cmd\":\"run\",\"program\":"@ + json_quoted(
            program,
        ) + ",\"args\":"@ + json_string_list(args) + "}\n"@,
    }
}

/// Writes a response as one JSON line.
pub fn encode_response(r: &Response) -> (line: String)
    ensures
        line@ == response_line(r@),
{
    let mut line = String::from_str("{\"success\":");
    if r.success {
        line.append("true");
    } else {
        line.append("false");
    }
    line.append(",\"error\":");
    match &r.error {
        Some(e) => {
            let q = quoted(e.as_str());
            line.append(q.as_str());
        },
        None => {
            line.append("null");
        },
    }
    line.append("}\n");
    line
}

fn string_list(args: &Vec<String>) -> (r: String)
    ensures
        r@ == json_string_list(args.deep_view()),
{
    let mut items = String::new();
    let mut i: usize = 0;
    while i < args.len()
        invariant
            i <= args@.len(),
            items@ == json_string_items(args.deep_view().subrange(0, i as int)),
        decreases args@.len() - i,
    {
        let ghost done = args.deep_view().subrange(0, i as int + 1);
        assert(done.drop_last() =~= args.deep_view().subrange(0, i as int));
        let q = quoted(args[i].as_str());
        if i > 0 {
            items.append(",");
        } else {
            assert(args.deep_view().subrange(0, 0) =~= Seq::<Seq<char>>::empty());
        }
        items.append(q.as_str());
        i = i + 1;
    }
    assert(args.deep_view().subrange(0, i as int) =~= args.deep_view());
    let mut r = String::from_str("[");
    r.append(items.as_str());
    r.append("]");
    r
}

/// Writes a request as one JSON line.
pub fn encode_request(r: &Request) -> (line: String)
    ensures
        line@ == request_line(r@),
{
    match r {
        Request::Write { path, value } => {
            let mut line = String::from_str("{\"cmd\":\"write\",\"path\":");
            line.append(quoted(path.as_str()).as_str());
            line.append(",\"value\":");
            line.append(quoted(value.as_str()).as_str());
            line.append("}\n");
            line
        },
        Request::Run { program, args } => {
            let mut line = String::from_str("{\"cmd\":\"run\",\"program\":");
            line.append(quoted(program.as_str()).as_str());
            line.append(",\"args\":");
            line.append(string_list(args).as_str());
            line.append("}\n");
            line
        },
    }
}

/// Whether `s` holds no line feed.
pub open spec fn no_line_feed(s: Seq<char>) -> bool {
    forall|i: int| 0 <= i < s.len() ==> s[i] != '\n'
}

/// Whether `s` is exactly one line: a line feed at its end and none before.
pub open spec fn is_one_line(s: Seq<char>) -> bool {
    &&& s.len() > 0
    &&& s.last() == '\n'
    &&& no_line_feed(s.drop_last())
}

proof fn lemma_no_line_feed_concat(a: Seq<char>, b: Seq<char>)
    requires
        no_line_feed(a),
        no_line_feed(b),
    ensures
        no_line_feed(a + b),
{
    assert forall|i: int| 0 <= i < (a + b).len() implies (a + b)[i] != '\n' by {
        if i >= a.len() {
            assert((a + b)[i] == b[i - a.len()]);
        }
    }
}

proof fn lemma_char_escape_no_line_feed(c: char)
    ensures
        no_line_feed(json_char_escape(c)),
{
    let e = json_char_escape(c);
    assert forall|i: int| 0 <= i < e.len() implies e[i] != '\n' by {
        if c != '"' && c != '\\' && c != '\x08' && c != '\t' && c != '\n' && c != '\x0C' && c
            != '\r' && (c as int) < 0x20 {
            let hi = c as int / 16;
            let lo = c as int % 16;
            assert(hex_digit(hi) != '\n');
            assert(hex_digit(lo) != '\n');
        }
    }
}

proof fn lemma_quoted_no_line_feed(s: Seq<char>)
    ensures
        no_line_feed(json_escaped(s)),
        no_line_feed(json_quoted(s)),
    decreases s.len(),
{
    if s.len() > 0 {
        lemma_quoted_no_line_feed(s.drop_last());
        lemma_char_escape_no_line_feed(s.last());
        lemma_no_line_feed_concat(json_escaped(s.drop_last()), json_char_escape(s.last()));
    }
    lemma_no_line_feed_concat(seq!['"'], json_escaped(s));
    lemma_no_line_feed_concat(seq!['"'] + json_escaped(s), seq!['"']);
}

proof fn lemma_items_no_line_feed(args: Seq<Seq<char>>)
    ensures
        no_line_feed(json_string_items(args)),
    decreases args.len(),
{
    reveal_strlit(",");
    if args.len() == 1 {
        lemma_quoted_no_line_feed(args[0]);
    } else if args.len() > 1 {
        lemma_items_no_line_feed(args.drop_last());
        lemma_quoted_no_line_feed(args.last());
        lemma_no_line_feed_concat(json_string_items(args.drop_last()), ","@);
        lemma_no_line_feed_concat(json_string_items(args.drop_last()) + ","@, json_quoted(args.last()));
    }
}

proof fn lemma_ends_line(body: Seq<char>)
    requires
        no_line_feed(body),
    ensures
        is_one_line(body + "}\n"@),
{
    reveal_strlit("}\n");
    lemma_no_line_feed_concat(body, seq!['}']);
    assert((body + "}\n"@).drop_last() =~= body + seq!['}']);
}

/// A response line is exactly one line: the JSON holds no line feed, so the
/// one that ends it is the only one.
pub proof fn lemma_response_is_one_line(r: ResponseView)
    ensures
        is_one_line(response_line(r)),
{
    reveal_strlit("{\"success\":");
    reveal_strlit("true");
    reveal_strlit("false");
    reveal_strlit(",\"error\":");
    reveal_strlit("null");
    let flag = if r.success {
        "true"@
    } else {
        "false"@
    };
    let err = match r.error {
        Some(e) => json_quoted(e),
        None => "null"@,
    };
    if let Some(e) = r.error {
        lemma_quoted_no_line_feed(e);
    }
    lemma_no_line_feed_concat("{\"success\":"@, flag);
    lemma_no_line_feed_concat("{\"success\":"@ + flag, ",\"error\":"@);
    lemma_no_line_feed_concat("{\"success\":"@ + flag + ",\"error\":"@, err);
    lemma_ends_line("{\"success\":"@ + flag + ",\"error\":"@ + err);
}

/// A request line is exactly one line: the JSON holds no line feed, so the
/// one that ends it is the only one.
pub proof fn lemma_request_is_one_line(r: RequestView)
    ensures
        is_one_line(request_line(r)),
{
    match r {
        RequestView::Write { path, value } => {
            reveal_strlit("{\"cmd\":\"write\",\"path\":");
            reveal_strlit(",\"value\":");
            let a = "{\"cmd\":\"write\",\"path\":"@;
            let b = ",\"value\":"@;
            lemma_quoted_no_line_feed(path);
            lemma_quoted_no_line_feed(value);
            lemma_no_line_feed_concat(a, json_quoted(path));
            lemma_no_line_feed_concat(a + json_quoted(path), b);
            lemma_no_line_feed_concat(a + json_quoted(path) + b, json_quoted(value));
            lemma_ends_line(a + json_quoted(path) + b + json_quoted(value));
        },
        RequestView::Run { program, args } => {
            reveal_strlit("{\"cmd\":\"run\",\"program\":");
            reveal_strlit(",\"args\":");
            reveal_strlit("[");
            reveal_strlit("]");
            let a = "{\"cmd\":\"run\",\"program\":"@;
            let b = ",\"args\":"@;
            lemma_quoted_no_line_feed(program);
            lemma_items_no_line_feed(args);
            lemma_no_line_feed_concat("["@, json_string_items(args));
            lemma_no_line_feed_concat("["@ + json_string_items(args), "]"@);
            let list = json_string_list(args);
            lemma_no_line_feed_concat(a, json_quoted(program));
            lemma_no_line_feed_concat(a + json_quoted(program), b);
            lemma_no_line_feed_concat(a + json_quoted(program) + b, list);
            lemma_ends_line(a + json_quoted(program) + b + list);
        },
    }
}

} // verus!
