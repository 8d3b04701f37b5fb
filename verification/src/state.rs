//! The state that survives a restart: for each watched file, the offset up
//! to which the sink has acknowledged its bytes and the sequence token to
//! send next. It is kept as one JSON object in a file named after a hash of
//! the watched file's path.

use vstd::prelude::*;

verus! {

/// The directory of the state files where none is configured.
pub open spec fn default_states_path() -> Seq<char> {
    "/usr/share/awatchlog/states"@
}

/// The code of the error that says that there is no state yet.
pub const NOT_FOUND: u64 = 0;

/// The code of the error that says that the state cannot be read.
pub const UNREADABLE: u64 = 1;

/// What is known of one watched file.
#[derive(Debug, Clone, PartialEq, Eq)]
pub struct State {
    /// The sequence token to send with the next batch.
    pub token: String,
    /// The number of bytes, from the start of the file, that the sink has
    /// acknowledged.
    pub offset: u64,
}

impl View for State {
    type V = (Seq<char>, u64);

    open spec fn view(&self) -> (Seq<char>, u64) {
        (self.token@, self.offset)
    }
}

/// Why no state was loaded.
#[derive(Debug, PartialEq, Eq)]
pub struct Error {
    /// `NOT_FOUND` where there is no state yet, which is how a first run
    /// starts; anything else makes a resume unsafe.
    pub code: u64,
    pub message: String,
}

/// The SHA-1 digest of the UTF-8 bytes of `data`, as 40 lower-case
/// hexadecimal digits.
pub uninterp spec fn sha1_hex(data: Seq<char>) -> Seq<char>;

/// The JSON text of the object with the string `first_value` under
/// `first_key` and the number `second_value` under `second_key`.
pub uninterp spec fn json_object(
    first_key: Seq<char>,
    first_value: Seq<char>,
    second_key: Seq<char>,
    second_value: u64,
) -> Seq<char>;

/// The string under `first_key` and the number under `second_key` of the
/// JSON object `text`; nothing where `text` is no JSON, or holds no string
/// or no number that fits 64 bits there.
pub uninterp spec fn json_fields(text: Seq<char>, first_key: Seq<char>, second_key: Seq<char>) -> Option<
    (Seq<char>, u64),
>;

/// Hashes `data`.
///
/// Trusted: this is `sha1::Sha1::new`, `update` with the bytes of `data` and
/// `digest().to_string()`, whose result is a function of those bytes alone.
/// The contract gives that result a name; the digest writes five words of
/// eight hexadecimal digits each, which makes the length.
#[verifier::external_body]
fn hex_digest(data: &str) -> (r: String)
    ensures
        r@ == sha1_hex(data@),
        r@.len() == 40,
{
    let mut hasher = sha1::Sha1::new();
    hasher.update(data.as_bytes());
    hasher.digest().to_string()
}

/// Writes a JSON object of one string and one number.
///
/// Trusted: the object is built as a `serde_json::Map` and written by
/// `serde_json::Value::to_string`, whose result is a function of the keys
/// and values alone. The contract gives that result a name, and claims that
/// reading the text back gives the same two values, as long as the keys
/// differ.
#[verifier::external_body]
fn write_object(first_key: &str, first_value: &str, second_key: &str, second_value: u64) -> (r: String)
    ensures
        r@ == json_object(first_key@, first_value@, second_key@, second_value),
        first_key@ != second_key@ ==> json_fields(r@, first_key@, second_key@) == Some(
            (first_value@, second_value),
        ),
{
    let mut fields = serde_json::Map::new();
    fields.insert(first_key.to_string(), serde_json::Value::from(first_value));
    fields.insert(second_key.to_string(), serde_json::Value::from(second_value));
    serde_json::Value::Object(fields).to_string()
}

/// Reads one string and one number out of a JSON object.
///
/// Trusted: the text is parsed by `serde_json::from_str` into a
/// `serde_json::Value`, and the two fields are read by `Value::get`,
/// `as_str` and `as_u64`, whose results are functions of the text and the
/// keys alone. The contract gives the result a name and claims nothing else
/// of it.
#[verifier::external_body]
fn read_object(text: &str, first_key: &str, second_key: &str) -> (r: Option<(String, u64)>)
    ensures
        r is Some <==> json_fields(text@, first_key@, second_key@) is Some,
        r is Some ==> (r->Some_0.0@, r->Some_0.1) == json_fields(text@, first_key@, second_key@)->Some_0,
{
    match serde_json::from_str::<serde_json::Value>(text) {
        Ok(value) => match (value.get(first_key), value.get(second_key)) {
            (Some(first), Some(second)) => match (first.as_str(), second.as_u64()) {
                (Some(string), Some(number)) => Some((string.to_string(), number)),
                _ => None,
            },
            _ => None,
        },
        Err(_) => None,
    }
}

/// The key of the token in a state file.
pub open spec fn token_key() -> Seq<char> {
    "token"@
}

/// The key of the offset in a state file.
pub open spec fn offset_key() -> Seq<char> {
    "offset"@
}

/// The key under which the state of the watched file `logfile` is kept.
pub open spec fn file_key_spec(logfile: Seq<char>) -> Seq<char> {
    sha1_hex(logfile)
}

/// The path of the state file of `logfile` in the directory `states_dir`.
pub open spec fn state_file_path_spec(logfile: Seq<char>, states_dir: Option<Seq<char>>) -> Seq<char> {
    let dir = match states_dir {
        Some(dir) => dir,
        None => default_states_path(),
    };
    dir + "/"@ + file_key_spec(logfile) + ".json"@
}

/// The text of the state file that holds `state`.
pub open spec fn saved_text(state: (Seq<char>, u64)) -> Seq<char> {
    json_object(token_key(), state.0, offset_key(), state.1)
}

/// The state that the text of a state file holds.
pub open spec fn loaded_state(text: Seq<char>) -> Option<(Seq<char>, u64)> {
    json_fields(text, token_key(), offset_key())
}

/// The key under which the state of the watched file `logfile` is kept: a
/// hash of its path, so that it is the same after a restart.
pub fn file_key(logfile: &str) -> (r: String)
    ensures
        r@ == file_key_spec(logfile@),
        r@.len() == 40,
{
    hex_digest(logfile)
}

/// The path of the state file of `logfile`, in `states_dir` or else in the
/// default directory.
pub fn get_state_file_path(logfile: &str, states_dir: Option<&str>) -> (r: String)
    ensures
        r@ == state_file_path_spec(
            logfile@,
            match states_dir {
                Some(dir) => Some(dir@),
                None => None,
            },
        ),
{
    let mut path = String::new();
    match states_dir {
        Some(dir) => path.append(dir),
        None => path.append("/usr/share/awatchlog/states"),
    }
    path.append("/");
    let key = file_key(logfile);
    path.append(key.as_str());
    path.append(".json");
    proof {
        let dir = match states_dir {
            Some(dir) => dir@,
            None => default_states_path(),
        };
        assert(path@ =~= dir + "/"@ + file_key_spec(logfile@) + ".json"@);
    }
    path
}

/// The text to write into the state file for `state`. Reading that text
/// back gives `state` again.
pub fn save(state: &State) -> (r: String)
    ensures
        r@ == saved_text(state@),
        loaded_state(r@) == Some(state@),
{
    proof {
        reveal_strlit("token");
        reveal_strlit("offset");
        assert("token"@.len() != "offset"@.len());
    }
    write_object("token", state.token.as_str(), "offset", state.offset)
}

/// The state to resume from, given what the state file holds: `content` is
/// its text, or nothing where there is no such file. A missing file is the
/// error `NOT_FOUND`; a text that holds no state is the error `UNREADABLE`.
pub fn load(content: Option<&str>) -> (r: Result<State, Error>)
    ensures
        match content {
            None => r is Err && r->Err_0.code == NOT_FOUND && r->Err_0.message@ == "State file not found"@,
            Some(text) => match loaded_state(text@) {
                Some(state) => r is Ok && r->Ok_0@ == state,
                None => r is Err && r->Err_0.code == UNREADABLE && r->Err_0.message@
                    == "State file holds no state"@,
            },
        },
{
    match content {
        None => Err(Error { code: NOT_FOUND, message: "State file not found".to_owned() }),
        Some(text) => match read_object(text, "token", "offset") {
            Some(fields) => Ok(State { token: fields.0, offset: fields.1 }),
            None => Err(Error { code: UNREADABLE, message: "State file holds no state".to_owned() }),
        },
    }
}

} // verus!
