//! Turning the raw output channels of a run into an execution result.
//!
//! The result channel is read as one JSON document, through serde_json.
//! JSON is a subset of YAML, and a run writes its result as JSON; a
//! document that only YAML accepts, or a stream of several documents, is
//! reported as a parse error here.
use vstd::prelude::*;

use crate::runner::ExecProgramResult;

verus! {

/// What `std::str::from_utf8` makes of some bytes: `None` where they are
/// not well-formed UTF-8.
pub uninterp spec fn utf8_decode(bytes: Seq<u8>) -> Option<Seq<char>>;

/// Whether serde_json accepts `text` as one JSON document.
pub uninterp spec fn json_accepts(text: Seq<char>) -> bool;

/// The member `key` of the JSON document `text`, in serde_json's compact
/// form, or `None` where the document is no object or has no such member.
/// It stands for three serde_json calls in a row: `from_str` into a
/// `Value`, `Value::get`, and the compact `Display` of the member.
/// The message of the error serde_json reports for `text`, where it does
/// not accept it.
pub uninterp spec fn json_error(text: Seq<char>) -> Seq<char>;

pub uninterp spec fn json_member(text: Seq<char>, key: Seq<char>) -> Option<Seq<char>>;

/// Relies on `std::str::from_utf8`: the first `len` bytes of `buf` as text,
/// or `None` where they are not UTF-8.
#[verifier::external_body]
fn utf8_prefix(buf: &Vec<u8>, len: usize) -> (r: Option<String>)
    requires
        len <= buf@.len(),
    ensures
        r is Some <==> utf8_decode(buf@.subrange(0, len as int)) is Some,
        r matches Some(s) ==> utf8_decode(buf@.subrange(0, len as int)) == Some(s@),
        r matches Some(s) ==> (s@.len() == 0 <==> len == 0),
{
    match std::str::from_utf8(&buf[..len]) {
        Ok(s) => Some(s.to_string()),
        Err(_) => None,
    }
}

/// Relies on `serde_json::from_str::<serde_json::Value>`, `Value::get` and
/// the compact `Display` of `Value`: parses `text` and hands back its
/// member `key` as JSON text; `Err` carries the parser's message.
#[verifier::external_body]
fn document_member(text: &str, key: &str) -> (r: Result<Option<String>, String>)
    ensures
        r is Ok <==> json_accepts(text@),
        r matches Ok(Some(t)) ==> json_member(text@, key@) == Some(t@),
        r matches Ok(None) ==> json_member(text@, key@) is None,
        r matches Err(e) ==> e@ == json_error(text@),
{
    match serde_json::from_str::<serde_json::Value>(text) {
        Ok(v) => match v.get(key) {
            Some(m) => Ok(Some(m.to_string())),
            None => Ok(None),
        },
        Err(e) => Err(e.to_string()),
    }
}

/// The key under which a run reports a panic inside its result document.
pub open spec fn panic_info_key() -> Seq<char> {
    seq!['_', '_', 'k', 'c', 'l', '_', 'P', 'a', 'n', 'i', 'c', 'I', 'n', 'f', 'o', '_', '_']
}

pub open spec fn is_nonzero_digit(c: char) -> bool {
    '1' <= c && c <= '9'
}

/// Some character before position `i` starts an exponent.
pub open spec fn exponent_before(t: Seq<char>, i: int) -> bool {
    exists|j: int| 0 <= j < i && (t[j] == 'e' || t[j] == 'E')
}

/// `t` is JSON number text whose value is zero (`0`, `-0`, `0.0`, `0e7`).
pub open spec fn zero_number_text(t: Seq<char>) -> bool {
    &&& t.len() > 0
    &&& (t[0] == '-' || ('0' <= t[0] && t[0] <= '9'))
    &&& forall|i: int| 0 <= i < t.len() && !exponent_before(t, i) ==> !is_nonzero_digit(#[trigger] t[i])
}

/// Truthiness of a JSON value given as compact text: `null`, `false`, zero,
/// the empty string, the empty list and the empty object are false.
pub open spec fn json_text_truthy(t: Seq<char>) -> bool {
    !(t == seq!['n', 'u', 'l', 'l'] || t == seq!['f', 'a', 'l', 's', 'e'] || t == seq!['"', '"']
        || t == seq!['[', ']'] || t == seq!['{', '}'] || zero_number_text(t))
}

pub open spec fn text_of(o: Option<String>) -> Option<Seq<char>> {
    match o {
        Some(t) => Some(t@),
        None => None,
    }
}

/// A panic marker is present and true.
pub open spec fn marker_truthy(m: Option<Seq<char>>) -> bool {
    m matches Some(t) && json_text_truthy(t)
}

fn is_chars(t: &str, lit: &str) -> (r: bool)
    ensures
        r == (t@ == lit@),
{
    let n = t.unicode_len();
    if n != lit.unicode_len() {
        return false;
    }
    let mut i: usize = 0;
    while i < n
        invariant
            n == t@.len(),
            n == lit@.len(),
            i <= n,
            forall|k: int| 0 <= k < i ==> t@[k] == lit@[k],
        decreases n - i,
    {
        if t.get_char(i) != lit.get_char(i) {
            return false;
        }
        i = i + 1;
    }
    assert(t@ =~= lit@);
    true
}

fn is_zero_number(t: &str) -> (r: bool)
    ensures
        r == zero_number_text(t@),
{
    let n = t.unicode_len();
    if n == 0 {
        return false;
    }
    let c0 = t.get_char(0);
    if !(c0 == '-' || ('0' <= c0 && c0 <= '9')) {
        return false;
    }
    let mut i: usize = 0;
    while i < n
        invariant
            n == t@.len(),
            n > 0,
            t@[0] == '-' || ('0' <= t@[0] && t@[0] <= '9'),
            i <= n,
            !exponent_before(t@, i as int),
            forall|k: int| 0 <= k < i && !exponent_before(t@, k) ==> !is_nonzero_digit(#[trigger] t@[k]),
        decreases n - i,
    {
        let c = t.get_char(i);
        if c == 'e' || c == 'E' {
            assert forall|k: int| 0 <= k < t@.len() && !exponent_before(t@, k) implies !is_nonzero_digit(#[trigger] t@[k]) by {
                if k > i {
                    assert(0 <= i < k && (t@[i as int] == 'e' || t@[i as int] == 'E'));
                    assert(exponent_before(t@, k));
                }
            }
            return true;
        }
        if '1' <= c && c <= '9' {
            return false;
        }
        proof {
            assert forall|k: int| 0 <= k < i + 1 && !exponent_before(t@, k) implies !is_nonzero_digit(#[trigger] t@[k]) by {}
            assert(!exponent_before(t@, i + 1)) by {
                if exponent_before(t@, i + 1) {
                    let j = choose|j: int| 0 <= j < i + 1 && (t@[j] == 'e' || t@[j] == 'E');
                    if j < i {
                        assert(exponent_before(t@, i as int));
                    }
                }
            }
        }
        i = i + 1;
    }
    true
}

/// Whether a JSON value, given as compact text, is truthy.
pub fn json_text_is_truthy(t: &str) -> (r: bool)
    ensures
        r == json_text_truthy(t@),
{
    proof {
        reveal_strlit("null");
        reveal_strlit("false");
        reveal_strlit("\"\"");
        reveal_strlit("[]");
        reveal_strlit("{}");
    }
    let falsy = is_chars(t, "null") || is_chars(t, "false") || is_chars(t, "\"\"") || is_chars(t, "[]")
        || is_chars(t, "{}") || is_zero_number(t);
    proof {
        assert("null"@ =~= seq!['n', 'u', 'l', 'l']);
        assert("false"@ =~= seq!['f', 'a', 'l', 's', 'e']);
        assert("\"\""@ =~= seq!['"', '"']);
        assert("[]"@ =~= seq!['[', ']']);
        assert("{}"@ =~= seq!['{', '}']);
    }
    !falsy
}

/// Given the panic marker that the document `msg` holds (`None` where it
/// has none), the document is an error when the marker is true and a
/// result otherwise; either way it is handed back whole.
pub fn check_panic_marker(msg: &str, marker: Option<String>) -> (r: Result<String, String>)
    ensures
        r is Err <==> marker_truthy(text_of(marker)),
        r matches Ok(s) ==> s@ == msg@,
        r matches Err(e) ==> e@ == msg@,
{
    let panicked = match &marker {
        Some(t) => json_text_is_truthy(t.as_str()),
        None => false,
    };
    if panicked {
        Err(msg.to_owned())
    } else {
        Ok(msg.to_owned())
    }
}

/// Reads a successful run's output as a document. It is an error when it
/// is no JSON document, or when its panic marker is true; otherwise the
/// document itself is the result. The error text is never empty for a
/// non-empty document.
pub fn wrap_msg_in_result(msg: &str) -> (r: Result<String, String>)
    ensures
        r is Ok <==> json_accepts(msg@) && !marker_truthy(json_member(msg@, panic_info_key())),
        r matches Ok(s) ==> s@ == msg@,
        json_accepts(msg@) ==> (r matches Err(e) ==> e@ == msg@),
        !json_accepts(msg@) ==> (r matches Err(e) && e@.len() > 0),
        !json_accepts(msg@) && json_error(msg@).len() > 0 ==> (r matches Err(e) && e@
            == json_error(msg@)),
        msg@.len() > 0 ==> (r matches Err(e) ==> e@.len() > 0),
{
    proof {
        reveal_strlit("__kcl_PanicInfo__");
        assert("__kcl_PanicInfo__"@ =~= panic_info_key());
    }
    match document_member(msg, "__kcl_PanicInfo__") {
        Ok(marker) => check_panic_marker(msg, marker),
        Err(e) => {
            if e.as_str().unicode_len() == 0 {
                proof {
                    reveal_strlit("the result is not a JSON document");
                }
                Err(String::from_str("the result is not a JSON document"))
            } else {
                Err(e)
            }
        },
    }
}

/// Why the raw output of a run could not be read.
#[derive(Clone, Copy, Debug, PartialEq, Eq, Structural)]
pub enum DecodeError {
    /// A reported length is negative or runs past its buffer.
    Truncated,
    /// A channel holds bytes that are not UTF-8.
    InvalidUtf8,
}

/// Every length that the entry point reported lies within the capacity
/// announced for its buffer, which is one byte less than the buffer (room
/// for a terminating NUL): the log length always, the result length when
/// `n > 0`, and the warning length `-n` when `n < 0`.
pub open spec fn lengths_fit(n: i32, result_buf_len: nat, warn_buf_len: nat, log_len: i32, log_buf_len: nat) -> bool {
    &&& 0 <= log_len < log_buf_len
    &&& n > 0 ==> n < result_buf_len
    &&& n < 0 ==> -n < warn_buf_len
}

/// The text of the channel that the return code `n` selects: the result
/// buffer for `n > 0`, the warning buffer for `n < 0`, nothing for zero.
pub open spec fn selected_text(n: i32, result: Seq<u8>, warn: Seq<u8>) -> Option<Seq<char>> {
    if n > 0 {
        utf8_decode(result.subrange(0, n as int))
    } else if n < 0 {
        utf8_decode(warn.subrange(0, -n))
    } else {
        Some(Seq::empty())
    }
}

/// Decodes the three output channels of a run whose entry point returned
/// `n` and reported `log_len` bytes of log. Each buffer was announced to
/// the entry point with a capacity of its length less one. A positive `n` is the length of
/// the result document, a negative one minus the length of an error message
/// in the warning buffer.
pub fn decode_exec_result(
    n: i32,
    result_buf: &Vec<u8>,
    warn_buf: &Vec<u8>,
    log_buf: &Vec<u8>,
    log_len: i32,
) -> (r: Result<ExecProgramResult, DecodeError>)
    ensures
        !lengths_fit(n, result_buf@.len(), warn_buf@.len(), log_len, log_buf@.len())
            ==> r == Err::<ExecProgramResult, DecodeError>(DecodeError::Truncated),
        lengths_fit(n, result_buf@.len(), warn_buf@.len(), log_len, log_buf@.len()) ==> {
            let log = utf8_decode(log_buf@.subrange(0, log_len as int));
            let text = selected_text(n, result_buf@, warn_buf@);
            &&& r is Err <==> log is None || text is None
            &&& r is Err ==> r == Err::<ExecProgramResult, DecodeError>(DecodeError::InvalidUtf8)
            &&& r matches Ok(res) ==> {
                let s = text->0;
                let good = json_accepts(s) && !marker_truthy(json_member(s, panic_info_key()));
                &&& res.log_message@ == log->0
                &&& n <= 0 ==> res.json_result@.len() == 0 && res.yaml_result@.len() == 0
                &&& n == 0 ==> res.err_message@.len() == 0
                &&& n < 0 ==> res.err_message@ == s
                &&& n > 0 && good ==> res.json_result@ == s && res.yaml_result@ == s
                    && res.err_message@.len() == 0
                &&& n > 0 && !good ==> res.json_result@.len() == 0 && res.yaml_result@.len() == 0
                &&& n > 0 && !good && json_accepts(s) ==> res.err_message@ == s
                &&& n != 0 && !(n > 0 && good) ==> res.err_message@.len() > 0
            }
        },
{
    if log_len < 0 || log_len as usize >= log_buf.len() {
        return Err(DecodeError::Truncated);
    }
    if n > 0 && n as usize >= result_buf.len() {
        return Err(DecodeError::Truncated);
    }
    if n < 0 && (0 - (n as i64)) as usize >= warn_buf.len() {
        return Err(DecodeError::Truncated);
    }
    let log_message = match utf8_prefix(log_buf, log_len as usize) {
        Some(s) => s,
        None => return Err(DecodeError::InvalidUtf8),
    };
    let mut result = ExecProgramResult {
        json_result: String::new(),
        yaml_result: String::new(),
        log_message,
        err_message: String::new(),
    };
    if n > 0 {
        let s = match utf8_prefix(result_buf, n as usize) {
            Some(s) => s,
            None => return Err(DecodeError::InvalidUtf8),
        };
        match wrap_msg_in_result(s.as_str()) {
            Ok(doc) => {
                // JSON is YAML as well: the one document serves both forms.
                result.yaml_result = doc.clone();
                result.json_result = doc;
            },
            Err(e) => result.err_message = e,
        }
    } else if n < 0 {
        let m = (0 - (n as i64)) as usize;
        result.err_message = match utf8_prefix(warn_buf, m) {
            Some(s) => s,
            None => return Err(DecodeError::InvalidUtf8),
        };
    }
    Ok(result)
}

/// Turns an error message into diagnostic text.
pub trait DiagnosticRenderer {
    /// The diagnostic text for `msg`.
    spec fn rendering(&self, msg: Seq<char>) -> Seq<char>;

    fn render(&self, msg: &str) -> (r: String)
        ensures
            r@ == self.rendering(msg@),
    ;
}

/// Renders a runtime error message as an evaluation-error diagnostic: a
/// header line, then the message. It stands in for the host's diagnostic
/// handler, whose own format this library does not reproduce.
pub struct EvaluationDiagnostic;

pub open spec fn evaluation_header() -> Seq<char> {
    seq![
        'e', 'r', 'r', 'o', 'r', '[', 'E', '3', 'M', '3', '8', ']', ':', ' ', 'E', 'v', 'a', 'l',
        'u', 'a', 't', 'i', 'o', 'n', 'E', 'r', 'r', 'o', 'r', '\n',
    ]
}

impl DiagnosticRenderer for EvaluationDiagnostic {
    open spec fn rendering(&self, msg: Seq<char>) -> Seq<char> {
        evaluation_header() + msg + seq!['\n']
    }

    fn render(&self, msg: &str) -> (r: String) {
        proof {
            reveal_strlit("error[E3M38]: EvaluationError\n");
            reveal_strlit("\n");
            assert("error[E3M38]: EvaluationError\n"@ =~= evaluation_header());
            assert("\n"@ =~= seq!['\n']);
        }
        let mut r = String::from_str("error[E3M38]: EvaluationError\n");
        r.append(msg);
        r.append("\n");
        r
    }
}

/// Puts a non-empty error message of `result` into diagnostic form and
/// leaves the rest alone. Should the renderer hand back nothing, the raw
/// message stays, so that success is still told by an empty message.
pub fn render_err_message<R: DiagnosticRenderer>(result: ExecProgramResult, renderer: &R) -> (r:
    ExecProgramResult)
    ensures
        r.json_result == result.json_result,
        r.yaml_result == result.yaml_result,
        r.log_message == result.log_message,
        result.err_message@.len() == 0 ==> r.err_message@.len() == 0,
        result.err_message@.len() > 0 ==> r.err_message@.len() > 0,
        result.err_message@.len() > 0 && renderer.rendering(result.err_message@).len() > 0
            ==> r.err_message@ == renderer.rendering(result.err_message@),
{
    let mut result = result;
    if result.err_message.as_str().unicode_len() > 0 {
        let rendered = renderer.render(result.err_message.as_str());
        if rendered.as_str().unicode_len() > 0 {
            result.err_message = rendered;
        }
    }
    result
}

/// Decodes the output channels of a run, as `decode_exec_result` does,
/// and puts a non-empty error message into `renderer`'s diagnostic form.
pub fn decode_and_render<R: DiagnosticRenderer>(
    n: i32,
    result_buf: &Vec<u8>,
    warn_buf: &Vec<u8>,
    log_buf: &Vec<u8>,
    log_len: i32,
    renderer: &R,
) -> (r: Result<ExecProgramResult, DecodeError>)
    ensures
        !lengths_fit(n, result_buf@.len(), warn_buf@.len(), log_len, log_buf@.len())
            ==> r == Err::<ExecProgramResult, DecodeError>(DecodeError::Truncated),
        lengths_fit(n, result_buf@.len(), warn_buf@.len(), log_len, log_buf@.len()) ==> {
            let log = utf8_decode(log_buf@.subrange(0, log_len as int));
            let text = selected_text(n, result_buf@, warn_buf@);
            &&& r is Err <==> log is None || text is None
            &&& r is Err ==> r == Err::<ExecProgramResult, DecodeError>(DecodeError::InvalidUtf8)
            &&& r matches Ok(res) ==> {
                let s = text->0;
                let good = json_accepts(s) && !marker_truthy(json_member(s, panic_info_key()));
                let raw = if n < 0 || (n > 0 && !good && json_accepts(s)) {
                    s
                } else {
                    Seq::<char>::empty()
                };
                &&& res.log_message@ == log->0
                &&& n <= 0 ==> res.json_result@.len() == 0 && res.yaml_result@.len() == 0
                &&& n == 0 ==> res.err_message@.len() == 0
                &&& n > 0 && good ==> res.json_result@ == s && res.yaml_result@ == s
                    && res.err_message@.len() == 0
                &&& n > 0 && !good ==> res.json_result@.len() == 0 && res.yaml_result@.len() == 0
                &&& n != 0 && !(n > 0 && good) ==> res.err_message@.len() > 0
                &&& raw.len() > 0 && renderer.rendering(raw).len() > 0 ==> res.err_message@
                    == renderer.rendering(raw)
            }
        },
{
    match decode_exec_result(n, result_buf, warn_buf, log_buf, log_len) {
        Ok(result) => Ok(render_err_message(result, renderer)),
        Err(e) => Err(e),
    }
}

} // verus!
