//! The command-line front end to the model, and the JSON that comes back from it.

use vstd::prelude::*;
use vstd::string::StringExecFns;
use crate::json::{json_value, parse};
use crate::text::chars::{substring, to_chars};
use crate::text::search::{char_position, char_position_meaning, seek_char};
use crate::text::split::{owned, texts, trim, trimmed};

verus! {

/// Why a reply holds no JSON object.
#[derive(Debug, Clone, Copy, PartialEq, Eq, Structural)]
pub enum ExtractError {
    /// There is no opening brace.
    NoObject,
    /// The first opening brace is never closed.
    Unbalanced,
    /// What stands between the braces is no JSON.
    NotJson,
}

impl ExtractError {
    pub open spec fn text(self) -> Seq<char> {
        match self {
            ExtractError::NoObject => "no JSON object in the reply"@,
            ExtractError::Unbalanced => "unbalanced braces in the reply"@,
            ExtractError::NotJson => "the extracted object is not valid JSON"@,
        }
    }

    pub fn message(&self) -> (r: &'static str)
        ensures
            r@ == self.text(),
    {
        match self {
            ExtractError::NoObject => "no JSON object in the reply",
            ExtractError::Unbalanced => "unbalanced braces in the reply",
            ExtractError::NotJson => "the extracted object is not valid JSON",
        }
    }
}

/// Where the brace stands that closes the outermost of `depth` open ones, read from
/// `i` on. Braces inside quoted values do not count, nor does a quotation mark that a
/// backslash escapes.
pub open spec fn closing_brace(s: Seq<char>, i: int, depth: int, quoted: bool, escaped: bool) -> Option<
    int,
>
    decreases s.len() - i,
{
    if i < 0 || i >= s.len() {
        None
    } else if quoted {
        if escaped {
            closing_brace(s, i + 1, depth, true, false)
        } else if s[i] == '\\' {
            closing_brace(s, i + 1, depth, true, true)
        } else {
            closing_brace(s, i + 1, depth, s[i] != '"', false)
        }
    } else if s[i] == '"' {
        closing_brace(s, i + 1, depth, true, false)
    } else if s[i] == '{' {
        closing_brace(s, i + 1, depth + 1, false, false)
    } else if s[i] == '}' {
        if depth <= 1 {
            Some(i)
        } else {
            closing_brace(s, i + 1, depth - 1, false, false)
        }
    } else {
        closing_brace(s, i + 1, depth, false, false)
    }
}

/// The first object in a text: from the first opening brace to the one that closes it.
pub open spec fn first_object(s: Seq<char>) -> Result<Seq<char>, ExtractError> {
    let start = char_position(s, '{');
    if start >= s.len() {
        Err(ExtractError::NoObject)
    } else {
        match closing_brace(s, start, 0, false, false) {
            Some(end) => Ok(s.subrange(start, end + 1)),
            None => Err(ExtractError::Unbalanced),
        }
    }
}

/// Which JSON a reply holds, given what the whole of it spells and, where it has a first
/// object, what that spells.
pub open spec fn settled(
    whole: Option<serde_json::Value>,
    object: Result<Option<serde_json::Value>, ExtractError>,
) -> Result<serde_json::Value, ExtractError> {
    match whole {
        Some(v) => Ok(v),
        None => match object {
            Ok(Some(v)) => Ok(v),
            Ok(None) => Err(ExtractError::NotJson),
            Err(e) => Err(e),
        },
    }
}

/// The JSON that a reply holds: the whole of it, or else its first object.
pub open spec fn extracted(text: Seq<char>) -> Result<serde_json::Value, ExtractError> {
    settled(
        json_value(trimmed(text)),
        match first_object(trimmed(text)) {
            Ok(object) => Ok(json_value(object)),
            Err(e) => Err(e),
        },
    )
}

/// The first object in a text, bare or with prose around it. Counting braces is aware
/// of strings, so a brace inside a quoted value, common in answers that quote code,
/// does not throw off the depth.
pub fn find_object(s: &str) -> (r: Result<String, ExtractError>)
    ensures
        match r {
            Ok(object) => first_object(s@) == Ok::<Seq<char>, ExtractError>(object@),
            Err(e) => first_object(s@) == Err::<Seq<char>, ExtractError>(e),
        },
{
    let cs = to_chars(s);
    let n: usize = cs.len();
    let start: usize = seek_char(&cs, '{');
    if start >= n {
        return Err(ExtractError::NoObject);
    }
    proof {
        char_position_meaning(s@, '{');
    }
    let mut depth: usize = 0;
    let mut quoted = false;
    let mut escaped = false;
    let mut i: usize = start;
    while i < n
        invariant
            cs@ == s@,
            start == char_position(s@, '{'),
            start <= i <= n == cs@.len(),
            start < n,
            s@[start as int] == '{',
            depth <= i - start,
            i > start ==> depth >= 1,
            i == start ==> !quoted,
            !quoted ==> !escaped,
            closing_brace(s@, start as int, 0, false, false) == closing_brace(
                s@,
                i as int,
                depth as int,
                quoted,
                escaped,
            ),
        decreases n - i,
    {
        let c = cs[i];
        if quoted {
            if escaped {
                escaped = false;
            } else if c == '\\' {
                escaped = true;
            } else if c == '"' {
                quoted = false;
            }
        } else if c == '"' {
            quoted = true;
        } else if c == '{' {
            depth += 1;
        } else if c == '}' {
            if depth <= 1 {
                return Ok(substring(&cs, start, i + 1));
            }
            depth -= 1;
        }
        i += 1;
    }
    Err(ExtractError::Unbalanced)
}

/// Which JSON a reply holds: the whole of it, or else its first object.
pub fn settle(
    whole: Option<serde_json::Value>,
    object: Result<Option<serde_json::Value>, ExtractError>,
) -> (r: Result<serde_json::Value, ExtractError>)
    ensures
        r == settled(whole, object),
{
    match whole {
        Some(v) => Ok(v),
        None => match object {
            Ok(Some(v)) => Ok(v),
            Ok(None) => Err(ExtractError::NotJson),
            Err(e) => Err(e),
        },
    }
}

/// Pulls a JSON object out of a model's reply: bare, fenced, or with prose around it.
pub fn extract_json(text: &str) -> (r: Result<serde_json::Value, ExtractError>)
    ensures
        r == extracted(text@),
{
    let reply = trim(text);
    let whole = parse(reply.as_str());
    let object = match find_object(reply.as_str()) {
        Ok(object) => Ok(parse(object.as_str())),
        Err(e) => Err(e),
    };
    settle(whole, object)
}

/// A text that has a first object starts with an opening brace there, and ends with
/// a closing one.
pub proof fn first_object_is_braced(s: Seq<char>)
    requires
        first_object(s) is Ok,
    ensures
        first_object(s)->Ok_0.len() >= 2,
        first_object(s)->Ok_0[0] == '{',
        first_object(s)->Ok_0.last() == '}',
{
    char_position_meaning(s, '{');
    let start = char_position(s, '{');
    closing_brace_meaning(s, start, 0, false, false);
}

proof fn closing_brace_meaning(s: Seq<char>, i: int, depth: int, quoted: bool, escaped: bool)
    requires
        0 <= i,
    ensures
        closing_brace(s, i, depth, quoted, escaped) matches Some(end) ==> i <= end < s.len()
            && s[end] == '}',
    decreases s.len() - i,
{
    if i < s.len() {
        if quoted {
            if escaped {
                closing_brace_meaning(s, i + 1, depth, true, false);
            } else if s[i] == '\\' {
                closing_brace_meaning(s, i + 1, depth, true, true);
            } else {
                closing_brace_meaning(s, i + 1, depth, s[i] != '"', false);
            }
        } else if s[i] == '"' {
            closing_brace_meaning(s, i + 1, depth, true, false);
        } else if s[i] == '{' {
            closing_brace_meaning(s, i + 1, depth + 1, false, false);
        } else if s[i] == '}' {
            if depth > 1 {
                closing_brace_meaning(s, i + 1, depth - 1, false, false);
            }
        } else {
            closing_brace_meaning(s, i + 1, depth, false, false);
        }
    }
}

// ---------------------------------------------------------------- calls

/// The program that makes the calls.
#[derive(Debug, Clone)]
pub struct Cli {
    /// The program that makes the calls.
    pub program: String,
}

/// What asks for JSON and nothing else.
pub open spec fn json_instruction() -> Seq<char> {
    "\n\nReturn a single JSON object and nothing else. No prose, no explanation, no code fences."@
}

/// What asks once more, after a reply that could not be read.
pub open spec fn retry_text(user: Seq<char>, error: Seq<char>) -> Seq<char> {
    user + "\n\n# Your previous reply could not be parsed\n\nError: "@ + error
        + "\n\nReturn only the JSON object."@
}

/// What is made of a first reply.
pub enum FirstReply {
    /// The JSON that it holds.
    Done(serde_json::Value),
    /// It holds none: ask again, with this.
    Retry { error: ExtractError, user: String },
}

impl FirstReply {
    /// Whether this is what becomes of the first reply to `user`, given what was read of it.
    pub open spec fn follows(
        self,
        user: Seq<char>,
        read: Result<serde_json::Value, ExtractError>,
    ) -> bool {
        match self {
            FirstReply::Done(v) => read == Ok::<serde_json::Value, ExtractError>(v),
            FirstReply::Retry { error, user: again } => {
                &&& read == Err::<serde_json::Value, ExtractError>(error)
                &&& again@ == retry_text(user, error.text())
            },
        }
    }
}

/// Whether this is what becomes of the second reply, after a first one that failed with
/// `first`, given what was read of it.
pub open spec fn is_second_reply(
    r: Result<serde_json::Value, String>,
    first: ExtractError,
    read: Result<serde_json::Value, ExtractError>,
) -> bool {
    match r {
        Ok(v) => read == Ok::<serde_json::Value, ExtractError>(v),
        Err(e) => read is Err && e@ == "second attempt also unparseable (first: "@ + first.text()
            + ")"@,
    }
}

impl Cli {
    /// The arguments of one call. The tools that run commands are left out: this needs
    /// text in and text out, and the process has no business touching the repository
    /// it is being asked about.
    pub fn invoke(&self, model: &str, system: &str) -> (r: Vec<String>)
        ensures
            texts(r@) == seq![
                "-p"@,
                "--output-format"@,
                "json"@,
                "--model"@,
                model@,
                "--restricted"@,
                "--strict-mcp-config"@,
                "--system-prompt"@,
                system@,
            ],
    {
        let args = owned(
            &[
                "-p",
                "--output-format",
                "json",
                "--model",
                model,
                "--restricted",
                "--strict-mcp-config",
                "--system-prompt",
                system,
            ],
        );
        assert(texts(args@) =~= seq![
            "-p"@,
            "--output-format"@,
            "json"@,
            "--model"@,
            model@,
            "--restricted"@,
            "--strict-mcp-config"@,
            "--system-prompt"@,
            system@,
        ]);
        args
    }

    /// The reply that a call brought back, unless the call reports an error.
    pub fn envelope(&self, result: String, is_error: bool) -> (r: Result<String, String>)
        ensures
            match r {
                Ok(reply) => !is_error && reply == result,
                Err(e) => is_error && e@ == self.program@ + " reported an error: "@ + result@,
            },
    {
        if is_error {
            Err(self.program.as_str().to_owned().concat(" reported an error: ").concat(result.as_str()))
        } else {
            Ok(result)
        }
    }

    /// The system prompt of a call that is to bring back JSON. The shape cannot be
    /// enforced, so it is asked for.
    pub fn json_system(&self, system: &str) -> (r: String)
        ensures
            r@ == system@ + json_instruction(),
    {
        system.to_owned().concat(
            "\n\nReturn a single JSON object and nothing else. No prose, no explanation, no code fences.",
        )
    }

    /// Reads the first reply to `user`. Where it holds no JSON, the call is to be made
    /// once more, with the error appended.
    pub fn complete_json(&self, user: &str, reply: &str) -> (r: FirstReply)
        ensures
            r.follows(user@, extracted(reply@)),
    {
        self.first_reply(user, extract_json(reply))
    }

    /// What becomes of the first reply to `user`, given what was read of it.
    pub fn first_reply(
        &self,
        user: &str,
        read: Result<serde_json::Value, ExtractError>,
    ) -> (r: FirstReply)
        ensures
            r.follows(user@, read),
    {
        match read {
            Ok(v) => FirstReply::Done(v),
            Err(error) => {
                let again = user.to_owned().concat(
                    "\n\n# Your previous reply could not be parsed\n\nError: ",
                ).concat(error.message()).concat("\n\nReturn only the JSON object.");
                FirstReply::Retry { error, user: again }
            },
        }
    }

    /// Reads the second reply, after a first one that failed with `first`. There is no
    /// third.
    pub fn complete_retry(&self, first: ExtractError, reply: &str) -> (r: Result<
        serde_json::Value,
        String,
    >)
        ensures
            is_second_reply(r, first, extracted(reply@)),
    {
        self.second_reply(first, extract_json(reply))
    }

    /// What becomes of the second reply, given what was read of it.
    pub fn second_reply(
        &self,
        first: ExtractError,
        read: Result<serde_json::Value, ExtractError>,
    ) -> (r: Result<serde_json::Value, String>)
        ensures
            is_second_reply(r, first, read),
    {
        match read {
            Ok(v) => Ok(v),
            Err(_) => Err(
                "second attempt also unparseable (first: ".to_owned().concat(
                    first.message(),
                ).concat(")"),
            ),
        }
    }
}

} // verus!
