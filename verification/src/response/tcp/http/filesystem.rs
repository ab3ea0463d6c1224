//! The responder that serves files: which file a request names, and the
//! response that a file makes, with the headers by which a client learns
//! how long its copy is good and the answer to a client that has one.

use std::collections::hash_map::DefaultHasher;
use std::fmt::Write;
use std::hash::Hasher;
use chrono::TimeZone;
use vstd::bytes::{spec_u32_to_le_bytes, spec_u64_to_le_bytes, u32_to_le_bytes, u64_to_le_bytes};
use vstd::prelude::*;
use vstd::std_specs::hash::DefaultHasherAdditionalSpecFns;
use crate::application_layer::http::request;
use crate::application_layer::http::response;
use crate::application_layer::http::response::ResponseView;
use crate::application_layer::http::scan::MessageView;
use crate::application_layer::http::syntax::{protocol_text, value_text, ValueView};
use crate::decimal::{decimal, decimal_of};
use crate::mime;
use crate::text::{append_chars, chars_of, last_index_of, last_position, starts_with, string_of};
use crate::text_map::{same_text, TextMap};
use crate::{Application, Config};

verus! {

/// A point in time: the seconds since the start of 1970 in UTC, and the
/// nanoseconds past that second.
#[derive(Debug, Clone, Copy, PartialEq, Eq, Structural)]
pub struct Timestamp {
    pub seconds: i64,
    pub nanoseconds: u32,
}

/// The seconds for which a response may be kept: thirty days.
pub const MAX_AGE: i64 = 2592000;

/// The date of a point in time as chrono writes it with a pattern, or
/// nothing where chrono holds no such point in time or cannot write it with
/// the pattern.
pub uninterp spec fn date_text(seconds: int, nanoseconds: int, pattern: Seq<char>) -> Option<
    Seq<char>,
>;

/// The seconds since the start of 1970, in UTC, of a date as chrono reads it
/// with a pattern, or chrono's error, as it writes it, where it reads no
/// date.
pub uninterp spec fn date_seconds(text: Seq<char>, pattern: Seq<char>) -> Result<int, Seq<char>>;

/// `chrono::DateTime::from_timestamp` and `chrono::DateTime::format`: the
/// date of a point in time, written with a pattern. The result depends on
/// the numbers and the pattern alone.
#[verifier::external_body]
fn format_date(seconds: i64, nanoseconds: u32, pattern: &str) -> (text: Option<String>)
    ensures
        match text {
            Some(t) => date_text(seconds as int, nanoseconds as int, pattern@) == Some(t@),
            None => date_text(seconds as int, nanoseconds as int, pattern@) is None,
        },
{
    match chrono::DateTime::<chrono::Utc>::from_timestamp(seconds, nanoseconds) {
        Some(time) => {
            let mut text = String::new();
            match write!(text, "{}", time.format(pattern)) {
                Ok(_) => Some(text),
                Err(_) => None,
            }
        },
        None => None,
    }
}

/// `chrono::TimeZone::datetime_from_str` for UTC and
/// `chrono::DateTime::timestamp`: the seconds of a date, read with a
/// pattern, or the error of the parse as its `Debug` writes it. The result
/// depends on the text and the pattern alone.
#[verifier::external_body]
#[allow(deprecated)]
fn parse_date(text: &str, pattern: &str) -> (seconds: Result<i64, String>)
    ensures
        match seconds {
            Ok(s) => date_seconds(text@, pattern@) == Ok::<int, Seq<char>>(s as int),
            Err(why) => date_seconds(text@, pattern@) == Err::<int, Seq<char>>(why@),
        },
{
    match chrono::Utc.datetime_from_str(text, pattern) {
        Ok(time) => Ok(time.timestamp()),
        Err(error) => Err(format!("{:?}", error)),
    }
}

/// The pattern of a date in the form `Sun, 06 Nov 1994 08:49:37 GMT`.
pub open spec fn date_pattern() -> Seq<char> {
    "%a, %d %b %Y %H:%M:%S GMT"@
}

/// The date of a point in time in the form `Sun, 06 Nov 1994 08:49:37 GMT`.
pub open spec fn rfc7231_text(seconds: int, nanoseconds: int) -> Option<Seq<char>> {
    date_text(seconds, nanoseconds, date_pattern())
}

/// The seconds since the start of 1970 of a date in the form
/// `Sun, 06 Nov 1994 08:49:37 GMT`.
pub open spec fn rfc7231_seconds(text: Seq<char>) -> Option<int> {
    match date_seconds(text, date_pattern()) {
        Ok(seconds) => Some(seconds),
        Err(_) => None,
    }
}

/// The error of a text that is no date in that form.
pub open spec fn rfc7231_error(text: Seq<char>) -> Seq<char> {
    "Failed to parse '"@ + text + "', error: "@ + date_seconds(text, date_pattern())->Err_0
}

/// The bits of a signed number read as an unsigned one.
pub open spec fn unsigned_bits(value: i64) -> u64 {
    if value >= 0 {
        value as u64
    } else {
        (u64::MAX - (-(value + 1))) as u64
    }
}

/// The entity tag of a file last changed at `modified`: the hash of the
/// seconds and the nanoseconds, in decimal notation.
pub open spec fn etag_of(modified: Timestamp) -> Seq<char> {
    decimal(
        DefaultHasher::spec_finish(
            seq![
                spec_u64_to_le_bytes(unsigned_bits(modified.seconds)),
                spec_u32_to_le_bytes(modified.nanoseconds),
            ],
        ) as nat,
    )
}

/// The date after which a file last changed at `modified` is stale.
pub open spec fn expires_text(modified: Timestamp) -> Option<Seq<char>> {
    if modified.seconds + MAX_AGE <= i64::MAX {
        rfc7231_text(modified.seconds + MAX_AGE, modified.nanoseconds as int)
    } else {
        None
    }
}

/// What was read of a file.
#[derive(Debug)]
pub enum FileContent {
    /// The bytes of the file.
    Read(Vec<u8>),
    /// The file could not be opened, and why.
    Unopened(String),
    /// The file could not be read, and why.
    Unread(String),
}

/// What is known of a file: what was read of it and, where its metadata
/// could be had, its length, and the time of its last change where that
/// could be had too.
#[derive(Debug)]
pub struct FileFacts {
    pub content: FileContent,
    pub length: Option<u64>,
    pub modified: Option<Timestamp>,
}

/// What was read of a file.
pub ghost enum ContentView {
    Read(Seq<u8>),
    Unopened(Seq<char>),
    Unread(Seq<char>),
}

/// What is known of a file.
pub ghost struct FactsView {
    pub content: ContentView,
    pub length: Option<u64>,
    pub modified: Option<Timestamp>,
}

impl View for FileContent {
    type V = ContentView;

    open spec fn view(&self) -> ContentView {
        match self {
            FileContent::Read(bytes) => ContentView::Read(bytes@),
            FileContent::Unopened(why) => ContentView::Unopened(why@),
            FileContent::Unread(why) => ContentView::Unread(why@),
        }
    }
}

impl View for FileFacts {
    type V = FactsView;

    open spec fn view(&self) -> FactsView {
        FactsView { content: self.content@, length: self.length, modified: self.modified }
    }
}

/// The headers with one more, where there is a value for it.
pub open spec fn with_header(
    headers: Map<Seq<char>, Seq<char>>,
    key: Seq<char>,
    value: Option<Seq<char>>,
) -> Map<Seq<char>, Seq<char>> {
    match value {
        Some(text) => headers.insert(key, text),
        None => headers,
    }
}

/// The headers of a file's response.
pub open spec fn file_headers(filename: Seq<char>, facts: FactsView) -> Map<Seq<char>, Seq<char>> {
    let typed = Map::<Seq<char>, Seq<char>>::empty().insert(
        "Content-Type"@,
        mime::mime_of(mime::lowercase(mime::extension(filename))),
    );
    let measured = match facts.length {
        Some(length) => typed.insert("Content-Length"@, decimal(length as nat)),
        None => typed,
    };
    let dated = match (facts.length, facts.modified) {
        (Some(_), Some(modified)) => with_header(
            with_header(
                measured,
                "Last-Modified"@,
                rfc7231_text(modified.seconds as int, modified.nanoseconds as int),
            ).insert("ETag"@, etag_of(modified)),
            "Expires"@,
            expires_text(modified),
        ),
        _ => measured,
    };
    dated.insert("Cache-Control"@, "max-age=2592000"@)
}

/// Whether the request names the entity tag of the file.
pub open spec fn tag_matches(headers: Map<Seq<char>, ValueView>, modified: Timestamp) -> bool {
    headers.contains_key("If-None-Match"@) && value_text(headers["If-None-Match"@]) == etag_of(
        modified,
    )
}

/// Whether the request names a date, and the file has not changed after
/// the second of that date.
pub open spec fn date_matches(headers: Map<Seq<char>, ValueView>, modified: Timestamp) -> bool {
    headers.contains_key("If-Modified-Since"@) && match rfc7231_seconds(
        value_text(headers["If-Modified-Since"@]),
    ) {
        Some(since) => modified.seconds <= since,
        None => false,
    }
}

/// Whether the copy that the client of a request holds is still good.
pub open spec fn not_modified(request: MessageView, facts: FactsView) -> bool {
    match (facts.length, facts.modified) {
        (Some(_), Some(modified)) => tag_matches(request.headers, modified) || date_matches(
            request.headers,
            modified,
        ),
        _ => false,
    }
}

/// The error of a file that could not be opened.
pub open spec fn open_error(filename: Seq<char>, why: Seq<char>) -> Seq<char> {
    "Error: Failed to open file "@ + filename + ", error: "@ + why
}

/// The error of a file that could not be read.
pub open spec fn read_error(filename: Seq<char>, why: Seq<char>) -> Seq<char> {
    "Error: Failed to read file "@ + filename + ", error: "@ + why
}

/// The response that a file makes to a request: `200 OK` with the bytes of
/// the file, or `304 Not Modified` without them where the client's copy is
/// still good; the headers are the same in both. A file that could not be
/// opened or read makes an error.
pub open spec fn file_response(filename: Seq<char>, request: MessageView, facts: FactsView)
    -> Result<ResponseView, Seq<char>> {
    match facts.content {
        ContentView::Unopened(why) => Err(open_error(filename, why)),
        ContentView::Unread(why) => Err(read_error(filename, why)),
        ContentView::Read(bytes) => Ok(
            ResponseView {
                protocol: protocol_text(request.request_line.protocol),
                status: if not_modified(request, facts) {
                    "304 Not Modified"@
                } else {
                    "200 OK"@
                },
                headers: file_headers(filename, facts),
                body: if not_modified(request, facts) {
                    Seq::empty()
                } else {
                    bytes
                },
            },
        ),
    }
}

/// Where the search for the file of a request stands: a question to the
/// file system, or the answer.
#[derive(Debug)]
pub enum Resolution {
    /// The canonical form of this path is asked for.
    Canonicalize(String),
    /// Whether this path is there, and whether it is a directory.
    Probe(String),
    /// The same of the index file of a directory.
    ProbeIndex(String),
    /// The request names this file.
    Found(String),
    /// The request names no file that is served.
    NotFound,
}

/// What the file system answers.
#[derive(Debug)]
pub enum Finding {
    /// The canonical form of a path, if it has one that is text.
    Canonical(Option<String>),
    /// Whether a path is there, and whether it is a directory.
    Probed { exists: bool, is_dir: bool },
}

/// Where a search stands.
pub ghost enum ResolutionView {
    Canonicalize(Seq<char>),
    Probe(Seq<char>),
    ProbeIndex(Seq<char>),
    Found(Seq<char>),
    NotFound,
}

/// What the file system answers.
pub ghost enum FindingView {
    Canonical(Option<Seq<char>>),
    Probed { exists: bool, is_dir: bool },
}

impl View for Resolution {
    type V = ResolutionView;

    open spec fn view(&self) -> ResolutionView {
        match self {
            Resolution::Canonicalize(path) => ResolutionView::Canonicalize(path@),
            Resolution::Probe(path) => ResolutionView::Probe(path@),
            Resolution::ProbeIndex(path) => ResolutionView::ProbeIndex(path@),
            Resolution::Found(path) => ResolutionView::Found(path@),
            Resolution::NotFound => ResolutionView::NotFound,
        }
    }
}

impl View for Finding {
    type V = FindingView;

    open spec fn view(&self) -> FindingView {
        match self {
            Finding::Canonical(Some(path)) => FindingView::Canonical(Some(path@)),
            Finding::Canonical(None) => FindingView::Canonical(None),
            Finding::Probed { exists, is_dir } => FindingView::Probed {
                exists: *exists,
                is_dir: *is_dir,
            },
        }
    }
}

/// The last segment of a path: what follows its last `/`.
pub open spec fn basename(path: Seq<char>) -> Seq<char> {
    path.skip(last_index_of(path, '/') + 1)
}

/// Whether a path is the root or lies beneath it: it begins with the root,
/// and the root ends where a segment of the path ends.
pub open spec fn beneath(path: Seq<char>, root: Seq<char>) -> bool {
    &&& root.is_prefix_of(path)
    &&& (path.len() == root.len() || (root.len() > 0 && root.last() == '/') || path[root.len() as int]
        == '/')
}

/// Whether a canonical path may be served: it is the root or lies beneath
/// it, and its last segment does not begin with a full stop.
pub open spec fn admitted(path: Seq<char>, root: Seq<char>) -> bool {
    beneath(path, root) && !(basename(path).len() > 0 && basename(path)[0] == '.')
}

/// The path that a request names: its own under the root.
pub open spec fn requested_path(root: Seq<char>, uri_base: Seq<char>) -> Seq<char> {
    root + uri_base
}

/// The index file of a directory.
pub open spec fn index_path(directory: Seq<char>, index: Seq<char>) -> Seq<char> {
    directory + seq!['/'] + index
}

/// Where the search stands after an answer of the file system. A canonical
/// path that may not be served ends the search; a directory is searched for
/// its index file; a file that is there is found.
pub open spec fn resolve(
    state: ResolutionView,
    finding: FindingView,
    root: Seq<char>,
    index: Seq<char>,
) -> ResolutionView {
    match (state, finding) {
        (ResolutionView::Canonicalize(_), FindingView::Canonical(Some(path))) => if admitted(
            path,
            root,
        ) {
            ResolutionView::Probe(path)
        } else {
            ResolutionView::NotFound
        },
        (ResolutionView::Probe(path), FindingView::Probed { exists, is_dir }) => if !exists {
            ResolutionView::NotFound
        } else if is_dir {
            ResolutionView::ProbeIndex(index_path(path, index))
        } else {
            ResolutionView::Found(path)
        },
        (ResolutionView::ProbeIndex(path), FindingView::Probed { exists, is_dir }) => if exists
            && !is_dir {
            ResolutionView::Found(path)
        } else {
            ResolutionView::NotFound
        },
        _ => ResolutionView::NotFound,
    }
}

/// The responder that serves files.
#[derive(Clone, Debug)]
pub struct Responder {
    pub filename: Option<String>,
}

/// The text of an optional text.
pub open spec fn text_of(text: Option<String>) -> Option<Seq<char>> {
    match text {
        Some(t) => Some(t@),
        None => None,
    }
}

impl Responder {
    /// A responder that has found no file yet.
    pub fn new() -> (responder: Responder)
        ensures
            responder.filename is None,
    {
        Responder { filename: None }
    }

    /// The date of a point in time in the form
    /// `Sun, 06 Nov 1994 08:49:37 GMT`.
    pub fn get_metadata_modified_as_rfc7231(modified: Timestamp) -> (text: Option<String>)
        ensures
            text_of(text) == rfc7231_text(modified.seconds as int, modified.nanoseconds as int),
    {
        format_date(modified.seconds, modified.nanoseconds, "%a, %d %b %Y %H:%M:%S GMT")
    }

    /// The point in time of a date in the form
    /// `Sun, 06 Nov 1994 08:49:37 GMT`.
    pub fn get_rfc7231_as_systemtime(modified: &String) -> (r: Result<Timestamp, String>)
        ensures
            match r {
                Ok(time) => rfc7231_seconds(modified@) == Some(time.seconds as int)
                    && time.nanoseconds == 0,
                Err(text) => rfc7231_seconds(modified@) is None && text@ == rfc7231_error(
                    modified@,
                ),
            },
    {
        match parse_date(modified.as_str(), "%a, %d %b %Y %H:%M:%S GMT") {
            Ok(seconds) => Ok(Timestamp { seconds, nanoseconds: 0 }),
            Err(why) => {
                let mut text = chars_of("Failed to parse '");
                append_chars(&mut text, &chars_of(modified.as_str()));
                append_chars(&mut text, &chars_of("', error: "));
                append_chars(&mut text, &chars_of(why.as_str()));
                Err(string_of(&text))
            },
        }
    }

    /// The entity tag of a file last changed at `data`.
    pub fn get_modified_hash(data: &Timestamp) -> (tag: String)
        ensures
            tag@ == etag_of(*data),
    {
        let bits: u64 = if data.seconds >= 0 {
            data.seconds as u64
        } else {
            u64::MAX - ((-(data.seconds + 1)) as u64)
        };
        let mut hasher = DefaultHasher::new();
        let seconds = u64_to_le_bytes(bits);
        hasher.write(seconds.as_slice());
        let nanoseconds = u32_to_le_bytes(data.nanoseconds);
        hasher.write(nanoseconds.as_slice());
        proof {
            assert(hasher@ =~= seq![
                spec_u64_to_le_bytes(unsigned_bits(data.seconds)),
                spec_u32_to_le_bytes(data.nanoseconds),
            ]);
        }
        decimal_of(hasher.finish())
    }

    /// For how long a response may be kept.
    pub fn get_cache_control(_application: &Application) -> (text: String)
        ensures
            text@ == "max-age=2592000"@,
    {
        "max-age=2592000".to_string()
    }

    /// The first question in the search for the file of a request: the
    /// canonical form of its path under the root.
    pub fn get_matching_filename(request_message: &request::Message, application: &Application) -> (state:
        Resolution)
        ensures
            state@ == ResolutionView::Canonicalize(
                requested_path(
                    application.config().filesystem_root@,
                    request_message.request_line.request_uri_base@,
                ),
            ),
    {
        first_question(request_message, application.get_config())
    }

    /// Whether a canonical path may be served.
    pub fn admits(path: &str, root: &str) -> (b: bool)
        ensures
            b == admitted(path@, root@),
    {
        let chars = chars_of(path);
        let root_chars = chars_of(root);
        if !starts_with(&chars, &root_chars) {
            return false;
        }
        let n = root_chars.len();
        let whole = chars.len() == n || (n > 0 && root_chars[n - 1] == '/') || chars[n] == '/';
        if !whole {
            return false;
        }
        let from: usize = match last_position(&chars, '/') {
            Some(i) => i + 1,
            None => 0,
        };
        let hidden = from < chars.len() && chars[from] == '.';
        !hidden
    }

    /// The next question in the search for the file of a request, or its
    /// answer, from the last question and what the file system answered.
    pub fn resolve(state: Resolution, finding: Finding, application: &Application) -> (next:
        Resolution)
        ensures
            next@ == resolve(
                state@,
                finding@,
                application.config().filesystem_root@,
                application.config().filesystem_directory_index@,
            ),
    {
        next_question(state, finding, application.get_config())
    }

    /// Whether the search found a file; the responder then keeps its name.
    pub fn matches(
        &mut self,
        _request_message: &request::Message,
        _application: &Application,
        _socket: &str,
        _overflow_bytes: &u64,
        resolution: Resolution,
    ) -> (b: bool)
        ensures
            b == (resolution@ is Found),
            b ==> text_of(final(self).filename) == Some(resolution@->Found_0),
            !b ==> final(self).filename == old(self).filename,
    {
        match resolution {
            Resolution::Found(filename) => {
                self.filename = Some(filename);
                true
            },
            _ => false,
        }
    }

    /// The headers by which a client learns when the file last changed and
    /// until when its copy is good, from the two dates as they are written
    /// and the entity tag. A date that cannot be written leaves its header
    /// out.
    pub fn dated_headers(
        headers: &mut TextMap<String>,
        last_modified: Option<String>,
        tag: String,
        expires: Option<String>,
    )
        ensures
            final(headers)@ == with_header(
                with_header(old(headers)@, "Last-Modified"@, text_of(last_modified)).insert(
                    "ETag"@,
                    tag@,
                ),
                "Expires"@,
                text_of(expires),
            ),
            old(headers).distinct() ==> final(headers).distinct(),
    {
        match last_modified {
            Some(text) => {
                headers.insert("Last-Modified".to_string(), text);
            },
            None => {},
        }
        headers.insert("ETag".to_string(), tag);
        match expires {
            Some(text) => {
                headers.insert("Expires".to_string(), text);
            },
            None => {},
        }
    }

    /// Whether the copy of a client is still good: the request names the
    /// entity tag of the file, or it names a date that could be read and
    /// the file has not changed after the second of that date.
    pub fn still_good(
        modified: Timestamp,
        tag: &str,
        if_none_match: Option<String>,
        if_modified_since: Option<Timestamp>,
    ) -> (b: bool)
        ensures
            b == ((if_none_match matches Some(named) && named@ == tag@) || (
            if_modified_since matches Some(since) && modified.seconds <= since.seconds)),
    {
        if let Some(named) = if_none_match {
            if same_text(named.as_str(), tag) {
                return true;
            }
        }
        if let Some(since) = if_modified_since {
            if modified.seconds <= since.seconds {
                return true;
            }
        }
        false
    }

    /// The headers by which a client learns when the file last changed and
    /// until when its copy is good.
    fn caching_headers(headers: &mut TextMap<String>, modified: Timestamp)
        ensures
            final(headers)@ == with_header(
                with_header(
                    old(headers)@,
                    "Last-Modified"@,
                    rfc7231_text(modified.seconds as int, modified.nanoseconds as int),
                ).insert("ETag"@, etag_of(modified)),
                "Expires"@,
                expires_text(modified),
            ),
            old(headers).distinct() ==> final(headers).distinct(),
    {
        let last_modified = Responder::get_metadata_modified_as_rfc7231(modified);
        let expires = if modified.seconds <= i64::MAX - MAX_AGE {
            Responder::get_metadata_modified_as_rfc7231(
                Timestamp {
                    seconds: modified.seconds + MAX_AGE,
                    nanoseconds: modified.nanoseconds,
                },
            )
        } else {
            None
        };
        Responder::dated_headers(
            headers,
            last_modified,
            Responder::get_modified_hash(&modified),
            expires,
        );
    }

    /// Whether the copy that the client of a request holds is still good.
    fn is_not_modified(request_message: &request::Message, modified: Timestamp) -> (b: bool)
        ensures
            b == (tag_matches(request_message@.headers, modified) || date_matches(
                request_message@.headers,
                modified,
            )),
    {
        let if_none_match = match request_message.headers.get("If-None-Match") {
            Some(value) => Some(value.to_string()),
            None => None,
        };
        let if_modified_since = match request_message.headers.get("If-Modified-Since") {
            Some(value) => match Responder::get_rfc7231_as_systemtime(&value.to_string()) {
                Ok(since) => Some(since),
                Err(_) => None,
            },
            None => None,
        };
        let tag = Responder::get_modified_hash(&modified);
        Responder::still_good(modified, tag.as_str(), if_none_match, if_modified_since)
    }

    /// The response that a file makes to a request.
    pub fn get_response(
        filename: &String,
        request_message: &request::Message,
        _application: &Application,
        file: FileFacts,
    ) -> (r: Result<response::Message, String>)
        ensures
            answers(r, file_response(filename@, request_message@, file@)),
    {
        respond_with_file(filename, request_message, file)
    }

    /// The response of the file that the responder has found.
    pub fn respond(
        &self,
        request_message: &request::Message,
        application: &Application,
        _socket: &str,
        _overflow_bytes: &u64,
        file: FileFacts,
    ) -> (r: Result<response::Message, String>)
        ensures
            match self.filename {
                Some(filename) => answers(
                    r,
                    file_response(filename@, request_message@, file@),
                ),
                None => r matches Err(text) && text@ == "Error: Filename missing"@,
            },
    {
        match &self.filename {
            Some(filename) => Responder::get_response(filename, request_message, application, file),
            None => Err("Error: Filename missing".to_string()),
        }
    }
}

/// Whether `r` is the response, or the error, that `expected` says, each
/// header of the response held once.
pub open spec fn answers(
    r: Result<response::Message, String>,
    expected: Result<ResponseView, Seq<char>>,
) -> bool {
    match r {
        Ok(message) => expected == Ok::<ResponseView, Seq<char>>(message@)
            && message.headers.distinct(),
        Err(text) => expected == Err::<ResponseView, Seq<char>>(text@),
    }
}

/// The first question in the search for the file of a request: the
/// canonical form of its path under the root.
pub fn first_question(request_message: &request::Message, config: &Config) -> (state: Resolution)
    ensures
        state@ == ResolutionView::Canonicalize(
            requested_path(config.filesystem_root@, request_message.request_line.request_uri_base@),
        ),
{
    let mut path = chars_of(config.filesystem_root.as_str());
    append_chars(&mut path, &chars_of(request_message.request_line.request_uri_base.as_str()));
    Resolution::Canonicalize(string_of(&path))
}

/// The next question in the search for the file of a request, or its
/// answer, from the last question and what the file system answered.
pub fn next_question(state: Resolution, finding: Finding, config: &Config) -> (next: Resolution)
    ensures
        next@ == resolve(
            state@,
            finding@,
            config.filesystem_root@,
            config.filesystem_directory_index@,
        ),
{
    match (state, finding) {
        (Resolution::Canonicalize(_), Finding::Canonical(Some(path))) => {
            if Responder::admits(path.as_str(), config.filesystem_root.as_str()) {
                Resolution::Probe(path)
            } else {
                Resolution::NotFound
            }
        },
        (Resolution::Probe(path), Finding::Probed { exists, is_dir }) => {
            if !exists {
                Resolution::NotFound
            } else if is_dir {
                let mut index = chars_of(path.as_str());
                index.push('/');
                append_chars(&mut index, &chars_of(config.filesystem_directory_index.as_str()));
                assert(index@ =~= index_path(path@, config.filesystem_directory_index@));
                Resolution::ProbeIndex(string_of(&index))
            } else {
                Resolution::Found(path)
            }
        },
        (Resolution::ProbeIndex(path), Finding::Probed { exists, is_dir }) => {
            if exists && !is_dir {
                Resolution::Found(path)
            } else {
                Resolution::NotFound
            }
        },
        _ => Resolution::NotFound,
    }
}

/// The response that a file makes to a request.
pub fn respond_with_file(filename: &String, request_message: &request::Message, file: FileFacts) -> (r:
    Result<response::Message, String>)
    ensures
        answers(r, file_response(filename@, request_message@, file@)),
{
    let FileFacts { content, length, modified } = file;
    let bytes = match content {
        FileContent::Read(bytes) => bytes,
        FileContent::Unopened(why) => {
            let mut text = chars_of("Error: Failed to open file ");
            append_chars(&mut text, &chars_of(filename.as_str()));
            append_chars(&mut text, &chars_of(", error: "));
            append_chars(&mut text, &chars_of(why.as_str()));
            return Err(string_of(&text));
        },
        FileContent::Unread(why) => {
            let mut text = chars_of("Error: Failed to read file ");
            append_chars(&mut text, &chars_of(filename.as_str()));
            append_chars(&mut text, &chars_of(", error: "));
            append_chars(&mut text, &chars_of(why.as_str()));
            return Err(string_of(&text));
        },
    };
    let protocol = request::Message::get_protocol_text(&request_message.request_line.protocol);
    let mut headers: TextMap<String> = TextMap::new();
    headers.insert("Content-Type".to_string(), mime::from_filename(filename.as_str()));
    let mut unchanged = false;
    if let Some(size) = length {
        headers.insert("Content-Length".to_string(), decimal_of(size));
        if let Some(last_modified) = modified {
            Responder::caching_headers(&mut headers, last_modified);
            unchanged = Responder::is_not_modified(request_message, last_modified);
        }
    }
    headers.insert("Cache-Control".to_string(), "max-age=2592000".to_string());
    if unchanged {
        Ok(response::Message::new(protocol, "304 Not Modified".to_string(), headers, Vec::new()))
    } else {
        Ok(response::Message::new(protocol, "200 OK".to_string(), headers, bytes))
    }
}

/// A path beside the root whose name only begins like the root is not
/// served: where the root does not end in `/`, a path that goes on after
/// the root with another character than `/` ends the search.
pub proof fn path_beside_root_is_not_served(
    asked: Seq<char>,
    root: Seq<char>,
    rest: Seq<char>,
    index: Seq<char>,
)
    requires
        root.len() > 0,
        root.last() != '/',
        rest.len() > 0,
        rest[0] != '/',
    ensures
        resolve(
            ResolutionView::Canonicalize(asked),
            FindingView::Canonical(Some(root + rest)),
            root,
            index,
        ) is NotFound,
{
    let path = root + rest;
    assert(path[root.len() as int] == rest[0]);
}

/// A path that is served is the root, or the root and, after a `/`, what
/// lies beneath it.
pub proof fn served_path_is_beneath_root(path: Seq<char>, root: Seq<char>)
    requires
        admitted(path, root),
    ensures
        path == root || (root.len() > 0 && root.last() == '/' && path == root + path.skip(
            root.len() as int,
        )) || path == root + seq!['/'] + path.skip(root.len() as int + 1),
{
    assert(path.subrange(0, root.len() as int) == root);
    if path.len() == root.len() {
        assert(path =~= root);
    } else if root.len() > 0 && root.last() == '/' {
        assert(path =~= root + path.skip(root.len() as int));
    } else {
        assert(path =~= root + seq!['/'] + path.skip(root.len() as int + 1));
    }
}

/// A path that does not lie beneath the root, or whose last segment begins
/// with a full stop, is not served, whatever the request.
pub proof fn unadmitted_path_is_not_served(
    asked: Seq<char>,
    path: Seq<char>,
    root: Seq<char>,
    index: Seq<char>,
)
    requires
        !admitted(path, root),
    ensures
        resolve(
            ResolutionView::Canonicalize(asked),
            FindingView::Canonical(Some(path)),
            root,
            index,
        ) is NotFound,
{
}

/// A file is found only where the file system says that it is there and is
/// no directory.
pub proof fn found_file_is_there(
    state: ResolutionView,
    finding: FindingView,
    root: Seq<char>,
    index: Seq<char>,
)
    ensures
        resolve(state, finding, root, index) is Found ==> finding == (FindingView::Probed {
            exists: true,
            is_dir: false,
        }),
{
}

/// The headers of a file's response do not depend on the request: the
/// response to a client whose copy is still good has the headers of the
/// full response, the length of the file among them, and no body.
pub proof fn not_modified_keeps_headers(
    filename: Seq<char>,
    first: MessageView,
    second: MessageView,
    facts: FactsView,
)
    ensures
        file_response(filename, first, facts) is Ok ==> {
            &&& file_response(filename, second, facts) is Ok
            &&& file_response(filename, first, facts)->Ok_0.headers == file_response(
                filename,
                second,
                facts,
            )->Ok_0.headers
        },
        file_response(filename, first, facts) matches Ok(response) ==> (response.status
            == "304 Not Modified"@ <==> not_modified(first, facts)),
        file_response(filename, first, facts) matches Ok(response) ==> (not_modified(first, facts)
            ==> response.body.len() == 0),
{
    reveal_strlit("304 Not Modified");
    reveal_strlit("200 OK");
    assert("200 OK"@.len() == 6);
    assert("304 Not Modified"@.len() == 16);
}

} // verus!
