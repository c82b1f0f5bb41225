//! How requests are answered: status codes and messages.

use crate::dispatch::DispatchError;
use crate::text::{chars_of, decimal_text, push_decimal, same_text, spells};
use vstd::prelude::*;

verus! {

pub const STATUS_OK: u16 = 200;

pub const CREATED: u16 = 201;

pub const NO_CONTENT: u16 = 204;

pub const BAD_REQUEST: u16 = 400;

pub const NOT_FOUND: u16 = 404;

pub const INTERNAL_SERVER_ERROR: u16 = 500;

pub const SERVICE_UNAVAILABLE: u16 = 503;

/// Why a request is not served.
#[derive(Debug)]
pub struct Refusal {
    pub status: u16,
    pub message: String,
}

impl Refusal {
    /// The refusal has that status and that message.
    pub open spec fn says(self, status: u16, message: Seq<char>) -> bool {
        self.status == status && self.message@ == message
    }

    pub fn new(status: u16, message: &str) -> (out: Refusal)
        ensures
            out.says(status, message@),
    {
        Refusal { status, message: String::from_str(message) }
    }
}

pub open spec fn not_registered_text(mg_id: u64) -> Seq<char> {
    "microgrid "@ + decimal_text(mg_id as nat) + " not registered"@
}

/// The answer for a microgrid that does not exist.
pub fn not_registered(mg_id: u64) -> (out: Refusal)
    ensures
        out.says(NOT_FOUND, not_registered_text(mg_id)),
{
    let mut message = String::from_str("microgrid ");
    push_decimal(&mut message, mg_id);
    message.append(" not registered");
    Refusal { status: NOT_FOUND, message }
}

/// The status of a refused dispatch.
pub open spec fn dispatch_status(err: DispatchError) -> u16 {
    match err {
        DispatchError::MissingStartTime => BAD_REQUEST,
        DispatchError::NotFound => NOT_FOUND,
    }
}

pub fn dispatch_err_to_http(err: DispatchError) -> (out: Refusal)
    ensures
        out.says(dispatch_status(err), err.spec_message()),
{
    let status: u16 = match err {
        DispatchError::MissingStartTime => BAD_REQUEST,
        DispatchError::NotFound => NOT_FOUND,
    };
    Refusal::new(status, err.message())
}

/// What an evaluation gave: a value, or why there is none.
#[derive(Debug)]
pub struct EvalResponse {
    pub ok: bool,
    pub value: Option<String>,
    pub error: Option<String>,
}

/// How an evaluation ended.
#[derive(Debug)]
pub enum Evaluation {
    Value(String),
    Failure(String),
    /// The task that evaluated it did not finish, for that reason.
    Panicked(String),
}

/// The answer to an evaluation. An expression that fails is still served; only
/// a task that panics is not.
pub fn eval_response(result: Evaluation) -> (out: (u16, EvalResponse))
    ensures
        match result {
            Evaluation::Value(v) => out.0 == STATUS_OK && out.1 == (EvalResponse {
                ok: true,
                value: Some(v),
                error: None,
            }),
            Evaluation::Failure(e) => out.0 == STATUS_OK && out.1 == (EvalResponse {
                ok: false,
                value: None,
                error: Some(e),
            }),
            Evaluation::Panicked(why) => {
                &&& out.0 == INTERNAL_SERVER_ERROR
                &&& !out.1.ok
                &&& out.1.value is None
                &&& out.1.error matches Some(e) && e@ == "eval task panicked: "@ + why@
            },
        },
{
    match result {
        Evaluation::Value(v) => (
            STATUS_OK,
            EvalResponse { ok: true, value: Some(v), error: None },
        ),
        Evaluation::Failure(e) => (
            STATUS_OK,
            EvalResponse { ok: false, value: None, error: Some(e) },
        ),
        Evaluation::Panicked(why) => {
            let mut message = String::from_str("eval task panicked: ");
            message.append(why.as_str());
            (
                INTERNAL_SERVER_ERROR,
                EvalResponse { ok: false, value: None, error: Some(message) },
            )
        },
    }
}

/// The answer to the removal of one persisted override, by how many were
/// removed or why none could be.
pub fn persisted_remove(idx: u64, removed: Result<usize, String>) -> (out: Result<u16, Refusal>)
    ensures
        match removed {
            Ok(n) => if n == 0 {
                out matches Err(r) && r.says(
                    NOT_FOUND,
                    "no persisted override at idx "@ + decimal_text(idx as nat),
                )
            } else {
                out == Ok::<u16, Refusal>(NO_CONTENT)
            },
            Err(e) => out matches Err(r) && r.says(
                INTERNAL_SERVER_ERROR,
                "write failed: "@ + e@,
            ),
        },
{
    match removed {
        Ok(n) => if n == 0 {
            let mut message = String::from_str("no persisted override at idx ");
            push_decimal(&mut message, idx);
            Err(Refusal { status: NOT_FOUND, message })
        } else {
            Ok(NO_CONTENT)
        },
        Err(e) => {
            let mut message = String::from_str("write failed: ");
            message.append(e.as_str());
            Err(Refusal { status: INTERNAL_SERVER_ERROR, message })
        },
    }
}

/// A stream client's state, as a status request reports it.
#[derive(Debug)]
pub struct MicrogridStatusResp {
    pub connected: bool,
    pub component_count: Option<usize>,
}

/// The answer to a status request: connected with so many components, or not
/// available yet.
pub fn microgrid_status_body(components: Option<usize>) -> (out: (u16, MicrogridStatusResp))
    ensures
        out.0 == (if components is Some {
            STATUS_OK
        } else {
            SERVICE_UNAVAILABLE
        }),
        out.1.connected == components is Some,
        out.1.component_count == components,
{
    match components {
        Some(n) => (
            STATUS_OK,
            MicrogridStatusResp { connected: true, component_count: Some(n) },
        ),
        None => (
            SERVICE_UNAVAILABLE,
            MicrogridStatusResp { connected: false, component_count: None },
        ),
    }
}

/// `s` ends with `tail`.
pub open spec fn ends_with(s: Seq<char>, tail: Seq<char>) -> bool {
    s.len() >= tail.len() && s.skip(s.len() - tail.len()) == tail
}

/// Two dots stand side by side in `s`.
pub open spec fn has_double_dot(s: Seq<char>) -> bool {
    exists|i: int| 0 <= i && i + 1 < s.len() && #[trigger] s[i] == '.' && s[i + 1] == '.'
}

/// A bare name of a CSV file: no separator, no way up, and the right ending.
pub open spec fn is_csv_name(s: Seq<char>) -> bool {
    &&& !s.contains('/')
    &&& !s.contains('\\')
    &&& !has_double_dot(s)
    &&& ends_with(s, ".csv"@)
}

fn csv_name(name: &str) -> (out: bool)
    ensures
        out == is_csv_name(name@),
{
    let s = chars_of(name);
    let mut i: usize = 0;
    while i < s.len()
        invariant
            i <= s.len(),
            s@ == name@,
            forall|k: int|
                0 <= k < i ==> #[trigger] s@[k] != '/' && s@[k] != '\\' && !(s@[k] == '.' && k + 1
                    < s.len() && s@[k + 1] == '.'),
        decreases s.len() - i,
    {
        if s[i] == '/' || s[i] == '\\' {
            assert(name@.contains(name@[i as int]));
            return false;
        }
        if s[i] == '.' && i + 1 < s.len() && s[i + 1] == '.' {
            assert(name@[i as int] == '.' && name@[i + 1] == '.');
            return false;
        }
        i = i + 1;
    }
    assert(!has_double_dot(name@));
    proof {
        reveal_strlit(".csv");
    }
    let n: usize = s.len();
    if n < 4 {
        return false;
    }
    let out = s[n - 4] == '.' && s[n - 3] == 'c' && s[n - 2] == 's' && s[n - 1] == 'v';
    proof {
        let tail = name@.skip(n - 4);
        assert(tail[0] == s@[n - 4] && tail[1] == s@[n - 3] && tail[2] == s@[n - 2] && tail[3]
            == s@[n - 1]);
        if out {
            assert(tail =~= ".csv"@);
        }
    }
    out
}

/// A string of `files` holds `name`.
pub open spec fn lists(files: Seq<String>, name: Seq<char>) -> bool {
    exists|i: int| 0 <= i < files.len() && (#[trigger] files[i])@ == name
}

/// Whether a recorded file may be downloaded: its name must be a bare CSV
/// name, and the recording must list it.
pub fn scenario_csv_file(file: &str, listing: Option<&Vec<String>>) -> (out: Result<(), Refusal>)
    ensures
        if !is_csv_name(file@) {
            out matches Err(r) && r.says(BAD_REQUEST, "invalid filename"@)
        } else {
            match listing {
                None => out matches Err(r) && r.says(NOT_FOUND, "no recording"@),
                Some(files) => if lists(files@, file@) {
                    out is Ok
                } else {
                    out matches Err(r) && r.says(NOT_FOUND, "no such file"@)
                },
            }
        },
{
    if !csv_name(file) {
        return Err(Refusal::new(BAD_REQUEST, "invalid filename"));
    }
    let files = match listing {
        Some(f) => f,
        None => {
            return Err(Refusal::new(NOT_FOUND, "no recording"));
        },
    };
    let mut i: usize = 0;
    while i < files.len()
        invariant
            i <= files.len(),
            is_csv_name(file@),
            listing == Some(files),
            forall|k: int| 0 <= k < i ==> (#[trigger] files@[k])@ != file@,
        decreases files.len() - i,
    {
        if same_text(files[i].as_str(), file) {
            assert(files@[i as int]@ == file@);
            return Ok(());
        }
        i = i + 1;
    }
    Err(Refusal::new(NOT_FOUND, "no such file"))
}

/// What stands behind the last dot; nothing without a dot.
pub open spec fn extension(path: Seq<char>) -> Seq<char>
    decreases path.len(),
{
    if !path.contains('.') {
        Seq::empty()
    } else if path.last() == '.' {
        Seq::empty()
    } else {
        extension(path.drop_last()).push(path.last())
    }
}

/// The media type of a file extension.
pub open spec fn mime_text(ext: Seq<char>) -> Seq<char> {
    if ext == "html"@ {
        "text/html; charset=utf-8"@
    } else if ext == "css"@ {
        "text/css; charset=utf-8"@
    } else if ext == "js"@ || ext == "mjs"@ {
        "application/javascript; charset=utf-8"@
    } else if ext == "json"@ {
        "application/json"@
    } else if ext == "svg"@ {
        "image/svg+xml"@
    } else if ext == "png"@ {
        "image/png"@
    } else if ext == "ico"@ {
        "image/x-icon"@
    } else {
        "application/octet-stream"@
    }
}

proof fn extension_behind_dot(path: Seq<char>, dot: int)
    requires
        0 <= dot < path.len(),
        path[dot] == '.',
        forall|k: int| dot < k < path.len() ==> #[trigger] path[k] != '.',
    ensures
        extension(path) == path.skip(dot + 1),
    decreases path.len(),
{
    assert(path.contains(path[dot]));
    if dot == path.len() - 1 {
        assert(path.skip(dot + 1) =~= Seq::<char>::empty());
    } else {
        let init = path.drop_last();
        assert forall|k: int| dot < k < init.len() implies #[trigger] init[k] != '.' by {
            assert(init[k] == path[k]);
        }
        assert(path[path.len() - 1] != '.');
        extension_behind_dot(init, dot);
        assert(path.skip(dot + 1) =~= init.skip(dot + 1).push(path.last()));
    }
}

/// The media type that an asset is served as.
pub fn mime_for(path: &str) -> (out: &'static str)
    ensures
        out@ == mime_text(extension(path@)),
{
    let s = chars_of(path);
    let mut start: usize = s.len();
    while start > 0 && s[start - 1] != '.'
        invariant
            start <= s.len(),
            s@ == path@,
            forall|k: int| start <= k < s.len() ==> #[trigger] s@[k] != '.',
        decreases start,
    {
        start = start - 1;
    }
    let mut ext: Vec<char> = Vec::new();
    if start > 0 {
        let mut i: usize = start;
        while i < s.len()
            invariant
                start <= i <= s.len(),
                ext@ == s@.subrange(start as int, i as int),
            decreases s.len() - i,
        {
            ext.push(s[i]);
            i = i + 1;
            assert(ext@ =~= s@.subrange(start as int, i as int));
        }
        proof {
            extension_behind_dot(path@, start - 1);
            assert(ext@ =~= path@.skip(start as int));
        }
    } else {
        assert(!path@.contains('.'));
        assert(ext@ =~= Seq::<char>::empty());
    }
    if spells(&ext, "html") {
        "text/html; charset=utf-8"
    } else if spells(&ext, "css") {
        "text/css; charset=utf-8"
    } else if spells(&ext, "js") || spells(&ext, "mjs") {
        "application/javascript; charset=utf-8"
    } else if spells(&ext, "json") {
        "application/json"
    } else if spells(&ext, "svg") {
        "image/svg+xml"
    } else if spells(&ext, "png") {
        "image/png"
    } else if spells(&ext, "ico") {
        "image/x-icon"
    } else {
        "application/octet-stream"
    }
}

/// A dispatch that is not there is answered as not found, and one that cannot
/// start as a bad request.
pub proof fn dispatch_faults_have_their_status(err: DispatchError)
    ensures
        dispatch_status(err) == 404 <==> err == DispatchError::NotFound,
        dispatch_status(err) == 400 <==> err == DispatchError::MissingStartTime,
{
}

/// A recording's file name leads nowhere else: it has no separator of paths in
/// it and does not name a parent directory, and it is a table by its ending.
pub proof fn csv_names_stay_in_place(name: Seq<char>)
    requires
        is_csv_name(name),
    ensures
        forall|i: int| 0 <= i < name.len() ==> #[trigger] name[i] != '/' && name[i] != '\\',
        forall|i: int, j: int|
            0 <= i < name.len() && j == i + 1 && j < name.len() && #[trigger] name[i] == '.'
                ==> #[trigger] name[j] != '.',
        name.len() >= 4,
        name[name.len() - 4] == '.',
        name[name.len() - 3] == 'c',
        name[name.len() - 2] == 's',
        name[name.len() - 1] == 'v',
{
    reveal_strlit(".csv");
    assert(".csv"@.len() == 4);
    let tail = name.skip(name.len() - 4);
    assert(tail[0] == '.' && tail[1] == 'c' && tail[2] == 's' && tail[3] == 'v');
    assert forall|i: int| 0 <= i < name.len() implies #[trigger] name[i] != '/' && name[i]
        != '\\' by {
        assert(name.contains(name[i]));
    }
}

/// A plain name of a table is accepted.
pub proof fn plain_csv_names_are_accepted(stem: Seq<char>)
    requires
        forall|i: int|
            0 <= i < stem.len() ==> #[trigger] stem[i] != '/' && stem[i] != '\\' && stem[i] != '.',
    ensures
        is_csv_name(stem + ".csv"@),
{
    reveal_strlit(".csv");
    let name = stem + ".csv"@;
    assert(".csv"@.len() == 4);
    assert(name.skip(name.len() - 4) =~= ".csv"@);
    assert forall|i: int| 0 <= i < name.len() implies #[trigger] name[i] != '/' && name[i]
        != '\\' && (name[i] == '.' <==> i == stem.len()) by {
        if i < stem.len() {
            assert(name[i] == stem[i]);
        } else {
            assert(name[i] == ".csv"@[i - stem.len()]);
        }
    }
    if has_double_dot(name) {
        let i = choose|i: int|
            0 <= i && i + 1 < name.len() && #[trigger] name[i] == '.' && name[i + 1] == '.';
        assert(name[i] == '.' && name[i + 1] == '.');
    }
}

/// The extension of a path is what stands behind its last dot; a path without a
/// dot has none.
pub proof fn extension_follows_the_last_dot(stem: Seq<char>, ext: Seq<char>)
    requires
        !ext.contains('.'),
    ensures
        extension(stem + seq!['.'] + ext) == ext,
        extension(ext).len() == 0,
{
    let path = stem + seq!['.'] + ext;
    let dot = stem.len() as int;
    assert forall|k: int| dot < k < path.len() implies #[trigger] path[k] != '.' by {
        assert(ext.contains(ext[k - dot - 1]));
    }
    extension_behind_dot(path, dot);
    assert(path.skip(dot + 1) =~= ext);
}

/// A file is listed exactly where its name stands in the listing.
pub proof fn listing_is_by_name(files: Seq<String>, name: Seq<char>)
    ensures
        lists(files, name) <==> files.map_values(|f: String| f@).contains(name),
{
    let names = files.map_values(|f: String| f@);
    if lists(files, name) {
        let i = choose|i: int| 0 <= i < files.len() && (#[trigger] files[i])@ == name;
        assert(names[i] == name);
    }
    if names.contains(name) {
        let i = choose|i: int| 0 <= i < names.len() && names[i] == name;
        assert(files[i]@ == name);
    }
}

/// A scripted page is served as a script, a style as a style, and what is not
/// known as plain bytes; no two known kinds are mixed up.
pub proof fn kinds_of_files_are_told_apart(ext: Seq<char>)
    ensures
        mime_text("html"@) == "text/html; charset=utf-8"@,
        mime_text("css"@) == "text/css; charset=utf-8"@,
        mime_text("js"@) == mime_text("mjs"@),
        mime_text("js"@) == "application/javascript; charset=utf-8"@,
        mime_text("json"@) == "application/json"@,
        mime_text("svg"@) == "image/svg+xml"@,
        mime_text("png"@) == "image/png"@,
        mime_text("ico"@) == "image/x-icon"@,
        ext != "html"@ && ext != "css"@ && ext != "js"@ && ext != "mjs"@ && ext != "json"@ && ext
            != "svg"@ && ext != "png"@ && ext != "ico"@ ==> mime_text(ext)
            == "application/octet-stream"@,
{
    reveal_strlit("html");
    reveal_strlit("css");
    reveal_strlit("js");
    reveal_strlit("mjs");
    reveal_strlit("json");
    reveal_strlit("svg");
    reveal_strlit("png");
    reveal_strlit("ico");
    assert("html"@[0] == 'h' && "css"@[0] == 'c' && "js"@[0] == 'j' && "mjs"@[0] == 'm');
    assert("json"@[0] == 'j' && "json"@.len() == 4 && "js"@.len() == 2);
    assert("svg"@[0] == 's' && "png"@[0] == 'p' && "ico"@[0] == 'i');
}

/// An evaluation is answered with its value or its error, never with both, and
/// only one that did not finish counts as a fault of the server.
pub proof fn evaluations_are_answered(result: Evaluation, out: (u16, EvalResponse))
    requires
        call_ensures(eval_response, (result,), out),
    ensures
        out.1.ok <==> result is Value,
        out.1.value is Some <==> result is Value,
        out.1.error is None <==> result is Value,
        result matches Evaluation::Value(v) ==> out.1.value == Some(v),
        result matches Evaluation::Failure(e) ==> out.1.error == Some(e),
        out.0 == 500 <==> result is Panicked,
        out.0 == 200 <==> !(result is Panicked),
{
}

/// Removing a stored form succeeds exactly where one was removed.
pub proof fn removal_is_answered(
    idx: u64,
    removed: Result<usize, String>,
    out: Result<u16, Refusal>,
)
    requires
        call_ensures(persisted_remove, (idx, removed), out),
    ensures
        out is Ok <==> (removed matches Ok(n) && n > 0),
        removed matches Ok(n) ==> (n == 0 ==> (out matches Err(r) && r.status == 404)),
        removed is Err ==> (out matches Err(r) && r.status == 500),
{
}

/// A microgrid is connected exactly where its components could be counted.
pub proof fn status_tells_the_connection(
    components: Option<usize>,
    out: (u16, MicrogridStatusResp),
)
    requires
        call_ensures(microgrid_status_body, (components,), out),
    ensures
        out.1.connected <==> components is Some,
        out.1.component_count == components,
        out.0 == 200 <==> components is Some,
        out.0 == 503 <==> components is None,
{
}

} // verus!
