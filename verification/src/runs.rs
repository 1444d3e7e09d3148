//! The checkpoint store's rules: run names and the file names derived from
//! them, which runs a selector picks, which runs retention removes, the
//! ordering of listings, the sample limits, and CSV quoting.

use vstd::prelude::*;

use crate::paths::{join, path_joined};
use crate::text::{
    insert_sorted, strictly_sorted, texts_of, concat2, concat3, copy_string, decimal_string, decimal_text, flatten, parse_usize,
    parsed_usize, same_text, string_of, to_chars, trim, trim_span,
};

verus! {

pub const RUN_SCHEMA: u32 = 1;

pub const EXPORT_SCHEMA: u32 = 1;

pub const DEFAULT_RUNS_DIR: &'static str = "/var/lib/simaai-sentinel/runs";

pub const ACTIVE_FILE: &'static str = "active.json";

pub const LOCK_FILE: &'static str = ".lock";

pub const JOURNAL_FILE: &'static str = "active.samples";

pub const JOURNAL_TMP_FILE: &'static str = "active.samples.tmp";

pub const DEFAULT_RETENTION: usize = 50;

pub const DEFAULT_MAX_SAMPLES: usize = 21600;

/// Why a run-store operation is refused.
#[derive(Debug, Clone)]
pub enum RunError {
    EmptyName,
    NameTooLong,
    NameControl,
    AlreadyRecording(String),
    AlreadyExists(String),
    Ambiguous(String),
    Unknown(String),
    UnknownCompleted(String),
    DeleteActive(String),
    NotRecording,
    SampleLimit(String, usize),
}

/// The message of an error.
pub open spec fn error_text(e: RunError) -> Seq<char> {
    match e {
        RunError::EmptyName => "checkpoint name must not be empty"@,
        RunError::NameTooLong => "checkpoint name must be at most 80 bytes"@,
        RunError::NameControl => "checkpoint name must not contain control characters"@,
        RunError::AlreadyRecording(n) => "checkpoint '"@ + n@
            + "' is already recording; stop it before starting another"@,
        RunError::AlreadyExists(n) => "a completed run named '"@ + n@ + "' already exists"@,
        RunError::Ambiguous(s) => "run name '"@ + s@ + "' is ambiguous; use a run ID"@,
        RunError::Unknown(s) => "unknown run '"@ + s@ + "'"@,
        RunError::UnknownCompleted(s) => "unknown completed run '"@ + s@ + "'"@,
        RunError::DeleteActive(n) => "cannot delete active run '"@ + n@ + "'; stop it first"@,
        RunError::NotRecording => "no checkpoint is currently recording"@,
        RunError::SampleLimit(n, limit) => "active checkpoint '"@ + n@ + "' reached the "@
            + decimal_text(limit as nat)
            + "-sample safety limit; stop it to save the captured data"@,
    }
}

impl RunError {
    pub fn message(&self) -> (r: String)
        ensures
            r@ == error_text(*self),
    {
        match self {
            RunError::EmptyName => copy_string("checkpoint name must not be empty"),
            RunError::NameTooLong => copy_string("checkpoint name must be at most 80 bytes"),
            RunError::NameControl => copy_string(
                "checkpoint name must not contain control characters",
            ),
            RunError::AlreadyRecording(n) => concat3(
                "checkpoint '",
                n.as_str(),
                "' is already recording; stop it before starting another",
            ),
            RunError::AlreadyExists(n) => concat3(
                "a completed run named '",
                n.as_str(),
                "' already exists",
            ),
            RunError::Ambiguous(s) => concat3("run name '", s.as_str(), "' is ambiguous; use a run ID"),
            RunError::Unknown(s) => concat3("unknown run '", s.as_str(), "'"),
            RunError::UnknownCompleted(s) => concat3("unknown completed run '", s.as_str(), "'"),
            RunError::DeleteActive(n) => concat3(
                "cannot delete active run '",
                n.as_str(),
                "'; stop it first",
            ),
            RunError::NotRecording => copy_string("no checkpoint is currently recording"),
            RunError::SampleLimit(n, limit) => {
                let head = concat3("active checkpoint '", n.as_str(), "' reached the ");
                let count = decimal_string(*limit as u64);
                concat3(
                    head.as_str(),
                    count.as_str(),
                    "-sample safety limit; stop it to save the captured data",
                )
            },
        }
    }
}

/// `char::is_control`: the C0 and C1 control characters.
pub open spec fn is_control(c: char) -> bool {
    (c as u32) <= 0x1F || (0x7F <= (c as u32) && (c as u32) <= 0x9F)
}

/// A checkpoint name is accepted when, trimmed, it is not empty, takes at
/// most 80 bytes of UTF-8, and holds no control character.
pub open spec fn name_check(name: Seq<char>) -> Result<(), RunError> {
    let t = trim(name);
    if t.len() == 0 {
        Err(RunError::EmptyName)
    } else if vstd::utf8::encode_utf8(t).len() > 80 {
        Err(RunError::NameTooLong)
    } else if exists|i: int| 0 <= i < t.len() && is_control(#[trigger] t[i]) {
        Err(RunError::NameControl)
    } else {
        Ok(())
    }
}

pub fn validate_name(name: &str) -> (r: Result<(), RunError>)
    ensures
        r == name_check(name@),
{
    let chars = to_chars(name);
    let (a, b) = trim_span(chars.as_slice());
    if a == b {
        return Err(RunError::EmptyName);
    }
    let ghost t = trim(name@);
    assert(t == chars@.subrange(a as int, b as int));
    let trimmed = string_of(&chars[a..b]);
    assert(trimmed@ == t);
    if trimmed.as_str().as_bytes().len() > 80 {
        return Err(RunError::NameTooLong);
    }
    let mut i: usize = a;
    while i < b
        invariant
            a <= i <= b <= chars@.len(),
            t == chars@.subrange(a as int, b as int),
            t == trim(name@),
            t.len() > 0,
            vstd::utf8::encode_utf8(t).len() <= 80,
            forall|j: int| a <= j < i ==> !is_control(#[trigger] chars@[j]),
        decreases b - i,
    {
        let u = chars[i] as u32;
        if u <= 0x1F || (0x7F <= u && u <= 0x9F) {
            assert(t[i - a] == chars@[i as int]);
            assert(is_control(t[i - a]));
            return Err(RunError::NameControl);
        }
        i = i + 1;
    }
    assert forall|k: int| 0 <= k < t.len() implies !is_control(#[trigger] t[k]) by {
        assert(t[k] == chars@[a + k]);
    }
    Ok(())
}

/// `char::to_lowercase` of a character, as the characters it yields (one,
/// two or three, by the Unicode lowercase mapping).
pub uninterp spec fn lowercase_of(c: char) -> Seq<char>;

/// The lowercase mapping of a character (`char::to_lowercase`); the result
/// is named by `lowercase_of` and depends on the character alone.
#[verifier::external_body]
fn char_lowercase(c: char) -> (r: Vec<char>)
    ensures
        r@ == lowercase_of(c),
{
    c.to_lowercase().collect()
}

pub open spec fn is_ascii_alphanumeric(c: char) -> bool {
    ('0' <= c <= '9') || ('a' <= c <= 'z') || ('A' <= c <= 'Z')
}

/// Scanning the lowercased name: ASCII letters and digits are kept, and each
/// run of other characters after some kept character becomes one `-`. The
/// flag says whether the text ends in such a `-`.
pub open spec fn slug_scan(cs: Seq<char>) -> (Seq<char>, bool)
    decreases cs.len(),
{
    if cs.len() == 0 {
        (seq![], false)
    } else {
        let (out, sep) = slug_scan(cs.drop_last());
        let c = cs.last();
        if is_ascii_alphanumeric(c) {
            (out.push(c), false)
        } else if !sep && out.len() > 0 {
            (out.push('-'), true)
        } else {
            (out, sep)
        }
    }
}

pub open spec fn strip_trailing_dashes(s: Seq<char>) -> Seq<char>
    decreases s.len(),
{
    if s.len() > 0 && s.last() == '-' {
        strip_trailing_dashes(s.drop_last())
    } else {
        s
    }
}

/// The file-name-safe form of a run name that run IDs end with; `run` when
/// nothing is left.
pub open spec fn slug_text(name: Seq<char>) -> Seq<char> {
    let s = strip_trailing_dashes(slug_scan(flatten(name.map_values(|c: char| lowercase_of(c)))).0);
    if s.len() == 0 {
        "run"@
    } else {
        s
    }
}

pub fn slug(name: &str) -> (r: String)
    ensures
        r@ == slug_text(name@),
{
    let chars = to_chars(name);
    let ghost lowered = flatten(name@.map_values(|c: char| lowercase_of(c)));
    let mut lower: Vec<char> = Vec::new();
    let mut i: usize = 0;
    while i < chars.len()
        invariant
            chars@ == name@,
            i <= chars@.len(),
            lower@ == flatten(name@.take(i as int).map_values(|c: char| lowercase_of(c))),
        decreases chars@.len() - i,
    {
        let mut piece = char_lowercase(chars[i]);
        let ghost before = lower@;
        lower.append(&mut piece);
        assert(name@.take(i + 1).map_values(|c: char| lowercase_of(c)) =~= name@.take(
            i as int,
        ).map_values(|c: char| lowercase_of(c)).push(lowercase_of(name@[i as int])));
        assert(name@.take(i + 1).map_values(|c: char| lowercase_of(c)).drop_last() =~= name@.take(
            i as int,
        ).map_values(|c: char| lowercase_of(c)));
        i = i + 1;
    }
    assert(name@.take(chars@.len() as int) =~= name@);
    let mut out: Vec<char> = Vec::new();
    let mut separator = false;
    let mut k: usize = 0;
    while k < lower.len()
        invariant
            lower@ == lowered,
            k <= lower@.len(),
            (out@, separator) == slug_scan(lower@.take(k as int)),
        decreases lower@.len() - k,
    {
        let c = lower[k];
        assert(lower@.take(k + 1).drop_last() =~= lower@.take(k as int));
        if ('0' <= c && c <= '9') || ('a' <= c && c <= 'z') || ('A' <= c && c <= 'Z') {
            out.push(c);
            separator = false;
        } else if !separator && out.len() > 0 {
            out.push('-');
            separator = true;
        }
        k = k + 1;
    }
    assert(lower@.take(lower@.len() as int) =~= lower@);
    while out.len() > 0 && out[out.len() - 1] == '-'
        invariant
            strip_trailing_dashes(out@) == strip_trailing_dashes(slug_scan(lowered).0),
        decreases out@.len(),
    {
        out.pop();
    }
    if out.len() == 0 {
        copy_string("run")
    } else {
        string_of(out.as_slice())
    }
}

pub open spec fn is_csv_special(c: char) -> bool {
    c == ',' || c == '"' || c == '\n' || c == '\r'
}

/// `v` with each `"` doubled.
pub open spec fn doubled_quotes(v: Seq<char>) -> Seq<char>
    decreases v.len(),
{
    if v.len() == 0 {
        seq![]
    } else if v.last() == '"' {
        doubled_quotes(v.drop_last()) + seq!['"', '"']
    } else {
        doubled_quotes(v.drop_last()).push(v.last())
    }
}

/// A CSV field: quoted, with inner quotes doubled, when it holds a comma,
/// quote or line break; as it is otherwise.
pub open spec fn csv_text(v: Seq<char>) -> Seq<char> {
    if exists|i: int| 0 <= i < v.len() && is_csv_special(#[trigger] v[i]) {
        seq!['"'] + doubled_quotes(v) + seq!['"']
    } else {
        v
    }
}

pub fn csv_field(value: &str) -> (r: String)
    ensures
        r@ == csv_text(value@),
{
    let chars = to_chars(value);
    let mut special = false;
    let mut i: usize = 0;
    while i < chars.len()
        invariant
            chars@ == value@,
            i <= chars@.len(),
            special <==> exists|j: int| 0 <= j < i && is_csv_special(#[trigger] chars@[j]),
        decreases chars@.len() - i,
    {
        let c = chars[i];
        if c == ',' || c == '"' || c == '\n' || c == '\r' {
            special = true;
        }
        i = i + 1;
    }
    if !special {
        return copy_string(value);
    }
    let mut out: Vec<char> = Vec::new();
    out.push('"');
    let mut k: usize = 0;
    while k < chars.len()
        invariant
            chars@ == value@,
            k <= chars@.len(),
            out@ == seq!['"'] + doubled_quotes(chars@.take(k as int)),
        decreases chars@.len() - k,
    {
        let c = chars[k];
        assert(chars@.take(k + 1).drop_last() =~= chars@.take(k as int));
        if c == '"' {
            out.push('"');
            out.push('"');
        } else {
            out.push(c);
        }
        assert(out@ =~= seq!['"'] + doubled_quotes(chars@.take(k + 1)));
        k = k + 1;
    }
    assert(chars@.take(chars@.len() as int) =~= chars@);
    out.push('"');
    string_of(out.as_slice())
}

/// The active run's index file in the runs directory.
pub fn active_path(directory: &str) -> (r: String)
    ensures
        r@ == path_joined(directory@, "active.json"@),
{
    join(directory, ACTIVE_FILE)
}

/// The lock file that serialises writers of the runs directory.
pub fn lock_path(directory: &str) -> (r: String)
    ensures
        r@ == path_joined(directory@, ".lock"@),
{
    join(directory, LOCK_FILE)
}

/// The append-only sample journal of the active run.
pub fn journal_path(directory: &str) -> (r: String)
    ensures
        r@ == path_joined(directory@, "active.samples"@),
{
    join(directory, JOURNAL_FILE)
}

/// Where a new journal is written before it replaces the old one.
pub fn journal_tmp_path(directory: &str) -> (r: String)
    ensures
        r@ == path_joined(directory@, "active.samples.tmp"@),
{
    join(directory, JOURNAL_TMP_FILE)
}

/// The file of a completed run: `<id>.json` in the runs directory.
pub fn completed_path(directory: &str, id: &str) -> (r: String)
    ensures
        r@ == path_joined(directory@, id@ + ".json"@),
{
    let file = concat2(id, ".json");
    join(directory, file.as_str())
}

/// The identity of a stored run: its ID and its name.
#[derive(Debug, Clone)]
pub struct RunEntry {
    pub id: String,
    pub name: String,
}

pub open spec fn entry_view(e: RunEntry) -> (Seq<char>, Seq<char>) {
    (e.id@, e.name@)
}

pub open spec fn entries_view(es: Seq<RunEntry>) -> Seq<(Seq<char>, Seq<char>)> {
    es.map_values(|e: RunEntry| entry_view(e))
}

/// A selector names a run by its ID or by its name.
pub open spec fn selects(e: (Seq<char>, Seq<char>), selector: Seq<char>) -> bool {
    e.0 == selector || e.1 == selector
}

/// The positions of the runs a selector names, in order.
pub open spec fn matching(es: Seq<(Seq<char>, Seq<char>)>, selector: Seq<char>) -> Seq<int>
    decreases es.len(),
{
    if es.len() == 0 {
        seq![]
    } else if selects(es.last(), selector) {
        matching(es.drop_last(), selector).push(es.len() - 1)
    } else {
        matching(es.drop_last(), selector)
    }
}

/// The completed run a selector names: none, exactly one, or an error when
/// it names several.
pub open spec fn completed_choice(es: Seq<(Seq<char>, Seq<char>)>, selector: Seq<char>) -> Result<Option<int>, Seq<char>> {
    let m = matching(es, selector);
    if m.len() > 1 {
        Err("run name '"@ + selector + "' is ambiguous; use a run ID"@)
    } else if m.len() == 1 {
        Ok(Some(m[0]))
    } else {
        Ok(None)
    }
}

pub fn find_completed(completed: &[RunEntry], selector: &str) -> (r: Result<Option<usize>, RunError>)
    ensures
        match r {
            Ok(Some(i)) => completed_choice(entries_view(completed@), selector@) == Ok::<Option<int>, Seq<char>>(Some(i as int)),
            Ok(None) => completed_choice(entries_view(completed@), selector@) == Ok::<Option<int>, Seq<char>>(None),
            Err(e) => completed_choice(entries_view(completed@), selector@) == Err::<Option<int>, Seq<char>>(error_text(e)),
        },
{
    let ghost es = entries_view(completed@);
    let mut found: Vec<usize> = Vec::new();
    let mut i: usize = 0;
    while i < completed.len()
        invariant
            es == entries_view(completed@),
            i <= completed@.len(),
            found@.map_values(|k: usize| k as int) == matching(es.take(i as int), selector@),
        decreases completed@.len() - i,
    {
        assert(es.take(i + 1).drop_last() =~= es.take(i as int));
        assert(es.take(i + 1).last() == entry_view(completed@[i as int]));
        if same_text(completed[i].id.as_str(), selector) || same_text(
            completed[i].name.as_str(),
            selector,
        ) {
            let ghost before = found@;
            found.push(i);
            assert(found@.map_values(|k: usize| k as int) =~= before.map_values(|k: usize| k as int).push(i as int));
        }
        i = i + 1;
    }
    assert(es.take(completed@.len() as int) =~= es);
    if found.len() > 1 {
        Err(RunError::Ambiguous(copy_string(selector)))
    } else if found.len() == 1 {
        assert(matching(es, selector@)[0] == found@[0] as int);
        Ok(Some(found[0]))
    } else {
        Ok(None)
    }
}

/// Where a selected run is: the active recording, or a completed run at a
/// position of the completed list.
#[derive(Debug, Clone, Copy, PartialEq, Eq, Structural)]
pub enum Found {
    Active,
    Completed(usize),
}

/// The run a selector names: the active run when it matches, else the
/// completed run it names.
pub open spec fn run_choice(
    active: Option<(Seq<char>, Seq<char>)>,
    es: Seq<(Seq<char>, Seq<char>)>,
    selector: Seq<char>,
) -> Result<Option<Found>, Seq<char>> {
    match active {
        Some(a) if selects(a, selector) => Ok(Some(Found::Active)),
        _ => match completed_choice(es, selector) {
            Ok(Some(i)) => Ok(Some(Found::Completed(i as usize))),
            Ok(None) => Ok(None),
            Err(e) => Err(e),
        },
    }
}

pub open spec fn active_view(active: Option<&RunEntry>) -> Option<(Seq<char>, Seq<char>)> {
    match active {
        Some(a) => Some(entry_view(*a)),
        None => None,
    }
}

fn entry_selected(e: &RunEntry, selector: &str) -> (r: bool)
    ensures
        r == selects(entry_view(*e), selector@),
{
    same_text(e.id.as_str(), selector) || same_text(e.name.as_str(), selector)
}

pub fn find_run(active: Option<&RunEntry>, completed: &[RunEntry], selector: &str) -> (r: Result<Option<Found>, RunError>)
    ensures
        match r {
            Ok(f) => run_choice(active_view(active), entries_view(completed@), selector@) == Ok::<Option<Found>, Seq<char>>(f),
            Err(e) => run_choice(active_view(active), entries_view(completed@), selector@) == Err::<Option<Found>, Seq<char>>(error_text(e)),
        },
{
    if let Some(a) = active {
        if entry_selected(a, selector) {
            return Ok(Some(Found::Active));
        }
    }
    match find_completed(completed, selector) {
        Ok(Some(i)) => Ok(Some(Found::Completed(i))),
        Ok(None) => Ok(None),
        Err(e) => Err(e),
    }
}

/// The run a selector must name (`load`): an unknown selector is an error.
pub open spec fn load_choice(
    active: Option<(Seq<char>, Seq<char>)>,
    es: Seq<(Seq<char>, Seq<char>)>,
    selector: Seq<char>,
) -> Result<Found, Seq<char>> {
    match run_choice(active, es, selector) {
        Ok(Some(f)) => Ok(f),
        Ok(None) => Err("unknown run '"@ + selector + "'"@),
        Err(e) => Err(e),
    }
}

pub fn load_target(active: Option<&RunEntry>, completed: &[RunEntry], selector: &str) -> (r: Result<Found, RunError>)
    ensures
        match r {
            Ok(f) => load_choice(active_view(active), entries_view(completed@), selector@) == Ok::<Found, Seq<char>>(f),
            Err(e) => load_choice(active_view(active), entries_view(completed@), selector@) == Err::<Found, Seq<char>>(error_text(e)),
        },
{
    match find_run(active, completed, selector) {
        Ok(Some(f)) => Ok(f),
        Ok(None) => Err(RunError::Unknown(copy_string(selector))),
        Err(e) => Err(e),
    }
}

/// The ID of a found run.
pub open spec fn found_id(
    active: Option<(Seq<char>, Seq<char>)>,
    es: Seq<(Seq<char>, Seq<char>)>,
    f: Found,
) -> Seq<char> {
    match f {
        Found::Active => match active {
            Some(a) => a.0,
            None => seq![],
        },
        Found::Completed(i) => es[i as int].0,
    }
}

/// The runs several selectors name, each run once, in the order first
/// named; the first selector that fails decides the error.
pub open spec fn many_choice(
    active: Option<(Seq<char>, Seq<char>)>,
    es: Seq<(Seq<char>, Seq<char>)>,
    selectors: Seq<Seq<char>>,
) -> Result<Seq<Found>, Seq<char>>
    decreases selectors.len(),
{
    if selectors.len() == 0 {
        Ok(seq![])
    } else {
        match many_choice(active, es, selectors.drop_last()) {
            Err(e) => Err(e),
            Ok(prev) => match load_choice(active, es, selectors.last()) {
                Err(e) => Err(e),
                Ok(f) => if exists|k: int|
                    0 <= k < prev.len() && found_id(active, es, #[trigger] prev[k]) == found_id(
                        active,
                        es,
                        f,
                    ) {
                    Ok(prev)
                } else {
                    Ok(prev.push(f))
                },
            },
        }
    }
}

fn found_id_of<'a>(active: Option<&'a RunEntry>, completed: &'a [RunEntry], f: Found) -> (r: &'a str)
    requires
        f is Active ==> active is Some,
        f matches Found::Completed(i) ==> i < completed@.len(),
    ensures
        r@ == found_id(active_view(active), entries_view(completed@), f),
{
    match f {
        Found::Active => match active {
            Some(a) => a.id.as_str(),
            None => "",
        },
        Found::Completed(i) => completed[i].id.as_str(),
    }
}

proof fn lemma_load_choice_valid(
    active: Option<(Seq<char>, Seq<char>)>,
    es: Seq<(Seq<char>, Seq<char>)>,
    selector: Seq<char>,
)
    ensures
        load_choice(active, es, selector) matches Ok(f) ==> (f is Active ==> active is Some) && (
        f matches Found::Completed(i) ==> i < es.len()),
{
    lemma_matching_bounds(es, selector);
}

proof fn lemma_matching_bounds(es: Seq<(Seq<char>, Seq<char>)>, selector: Seq<char>)
    ensures
        forall|k: int|
            0 <= k < matching(es, selector).len() ==> 0 <= #[trigger] matching(es, selector)[k]
                < es.len(),
    decreases es.len(),
{
    if es.len() > 0 {
        lemma_matching_bounds(es.drop_last(), selector);
        let prev = matching(es.drop_last(), selector);
        assert forall|k: int| 0 <= k < matching(es, selector).len() implies 0
            <= #[trigger] matching(es, selector)[k] < es.len() by {
            if k < prev.len() {
                assert(matching(es, selector)[k] == prev[k]);
            }
        }
    }
}

proof fn lemma_many_error_stays(
    active: Option<(Seq<char>, Seq<char>)>,
    es: Seq<(Seq<char>, Seq<char>)>,
    sels: Seq<Seq<char>>,
    n: int,
)
    requires
        0 <= n <= sels.len(),
        many_choice(active, es, sels.take(n)) is Err,
    ensures
        many_choice(active, es, sels) == many_choice(active, es, sels.take(n)),
    decreases sels.len(),
{
    if n == sels.len() {
        assert(sels.take(n) =~= sels);
    } else {
        assert(sels.drop_last().take(n) =~= sels.take(n));
        lemma_many_error_stays(active, es, sels.drop_last(), n);
    }
}

/// The runs named by several selectors, without repeats (`load_many`).
pub fn select_many(active: Option<&RunEntry>, completed: &[RunEntry], selectors: &[String]) -> (r: Result<Vec<Found>, RunError>)
    ensures
        match r {
            Ok(v) => many_choice(active_view(active), entries_view(completed@), texts_of(selectors@)) == Ok::<Seq<Found>, Seq<char>>(v@),
            Err(e) => many_choice(active_view(active), entries_view(completed@), texts_of(selectors@)) == Err::<Seq<Found>, Seq<char>>(error_text(e)),
        },
{
    let ghost av = active_view(active);
    let ghost es = entries_view(completed@);
    let ghost sels = texts_of(selectors@);
    let mut out: Vec<Found> = Vec::new();
    let mut i: usize = 0;
    while i < selectors.len()
        invariant
            av == active_view(active),
            es == entries_view(completed@),
            sels == texts_of(selectors@),
            i <= selectors@.len(),
            many_choice(av, es, sels.take(i as int)) == Ok::<Seq<Found>, Seq<char>>(out@),
            forall|k: int| 0 <= k < out@.len() ==> (#[trigger] out@[k] is Active ==> active is Some) && (out@[k] matches Found::Completed(j) ==> j < completed@.len()),
        decreases selectors@.len() - i,
    {
        assert(sels.take(i + 1).drop_last() =~= sels.take(i as int));
        assert(sels.take(i + 1).last() == selectors@[i as int]@);
        proof {
            lemma_load_choice_valid(av, es, selectors@[i as int]@);
        }
        match load_target(active, completed, selectors[i].as_str()) {
            Err(e) => {
                proof {
                    lemma_many_error_stays(av, es, sels, i + 1);
                }
                return Err(e);
            },
            Ok(f) => {
                let id = found_id_of(active, completed, f);
                let mut seen = false;
                let mut k: usize = 0;
                while k < out.len()
                    invariant
                        k <= out@.len(),
                        id@ == found_id(av, es, f),
                        av == active_view(active),
                        es == entries_view(completed@),
                        forall|m: int| 0 <= m < out@.len() ==> (#[trigger] out@[m] is Active ==> active is Some) && (out@[m] matches Found::Completed(j) ==> j < completed@.len()),
                        seen <==> exists|m: int| 0 <= m < k && found_id(av, es, #[trigger] out@[m]) == found_id(av, es, f),
                    decreases out@.len() - k,
                {
                    let other = found_id_of(active, completed, out[k]);
                    if same_text(other, id) {
                        seen = true;
                    }
                    k = k + 1;
                }
                if !seen {
                    out.push(f);
                }
            },
        }
        i = i + 1;
    }
    assert(sels.take(selectors@.len() as int) =~= sels);
    Ok(out)
}

/// Which completed run a delete removes: never the active recording, and
/// the selector must name exactly one completed run.
pub open spec fn delete_choice(
    active: Option<(Seq<char>, Seq<char>)>,
    es: Seq<(Seq<char>, Seq<char>)>,
    selector: Seq<char>,
) -> Result<int, Seq<char>> {
    match active {
        Some(a) if selects(a, selector) => Err(
            "cannot delete active run '"@ + a.1 + "'; stop it first"@,
        ),
        _ => match completed_choice(es, selector) {
            Ok(Some(i)) => Ok(i),
            Ok(None) => Err("unknown completed run '"@ + selector + "'"@),
            Err(e) => Err(e),
        },
    }
}

pub fn delete_target(active: Option<&RunEntry>, completed: &[RunEntry], selector: &str) -> (r: Result<usize, RunError>)
    ensures
        match r {
            Ok(i) => delete_choice(active_view(active), entries_view(completed@), selector@) == Ok::<int, Seq<char>>(i as int),
            Err(e) => delete_choice(active_view(active), entries_view(completed@), selector@) == Err::<int, Seq<char>>(error_text(e)),
        },
{
    if let Some(a) = active {
        if entry_selected(a, selector) {
            return Err(RunError::DeleteActive(copy_string(a.name.as_str())));
        }
    }
    match find_completed(completed, selector) {
        Ok(Some(i)) => Ok(i),
        Ok(None) => Err(RunError::UnknownCompleted(copy_string(selector))),
        Err(e) => Err(e),
    }
}

/// Whether a new checkpoint may start: a valid name, nothing recording, and
/// no completed run already answering to the name.
pub open spec fn start_choice(
    name: Seq<char>,
    active_name: Option<Seq<char>>,
    es: Seq<(Seq<char>, Seq<char>)>,
) -> Result<(), Seq<char>> {
    match name_check(name) {
        Err(e) => Err(error_text(e)),
        Ok(_) => match active_name {
            Some(a) => Err("checkpoint '"@ + a + "' is already recording; stop it before starting another"@),
            None => match completed_choice(es, name) {
                Ok(Some(_)) => Err("a completed run named '"@ + name + "' already exists"@),
                Ok(None) => Ok(()),
                Err(e) => Err(e),
            },
        },
    }
}

pub fn start_check(name: &str, active_name: Option<&str>, completed: &[RunEntry]) -> (r: Result<(), RunError>)
    ensures
        match r {
            Ok(_) => start_choice(name@, match active_name { Some(a) => Some(a@), None => None }, entries_view(completed@)) == Ok::<(), Seq<char>>(()),
            Err(e) => start_choice(name@, match active_name { Some(a) => Some(a@), None => None }, entries_view(completed@)) == Err::<(), Seq<char>>(error_text(e)),
        },
{
    match validate_name(name) {
        Err(e) => {
            return Err(e);
        },
        Ok(_) => {},
    }
    if let Some(a) = active_name {
        return Err(RunError::AlreadyRecording(copy_string(a)));
    }
    match find_completed(completed, name) {
        Ok(Some(_)) => Err(RunError::AlreadyExists(copy_string(name))),
        Ok(None) => Ok(()),
        Err(e) => Err(e),
    }
}

/// Position `i` comes before position `j` when its key is smaller (larger,
/// for a descending order), equal keys keeping their original order.
pub open spec fn precedes(keys: Seq<i128>, descending: bool, i: int, j: int) -> bool {
    (if descending {
        keys[i] > keys[j]
    } else {
        keys[i] < keys[j]
    }) || (keys[i] == keys[j] && i < j)
}

/// Position `j` occurs in `order`.
pub open spec fn appears(order: Seq<usize>, j: int) -> bool {
    exists|k: int| 0 <= k < order.len() && order[k] == j
}

/// `order` lists every position of `keys` once, in the order a stable sort
/// by key puts them.
pub open spec fn stably_sorted(keys: Seq<i128>, descending: bool, order: Seq<usize>) -> bool {
    &&& order.len() == keys.len()
    &&& forall|k: int| 0 <= k < order.len() ==> #[trigger] order[k] < keys.len()
    &&& forall|j: int| 0 <= j < keys.len() ==> #[trigger] appears(order, j)
    &&& forall|a: int, b: int|
        0 <= a < b < order.len() ==> precedes(
            keys,
            descending,
            #[trigger] order[a] as int,
            #[trigger] order[b] as int,
        )
}

fn precedes_exec(keys: &[i128], descending: bool, i: usize, j: usize) -> (r: bool)
    requires
        i < keys@.len(),
        j < keys@.len(),
    ensures
        r == precedes(keys@, descending, i as int, j as int),
{
    (if descending {
        keys[i] > keys[j]
    } else {
        keys[i] < keys[j]
    }) || (keys[i] == keys[j] && i < j)
}

/// The positions of `keys` in stable-sorted order (`sort_by_key`, with
/// `Reverse` for a descending order).
pub fn stable_order(keys: &[i128], descending: bool) -> (r: Vec<usize>)
    ensures
        stably_sorted(keys@, descending, r@),
{
    let mut order: Vec<usize> = Vec::new();
    let mut i: usize = 0;
    while i < keys.len()
        invariant
            i <= keys@.len(),
            order@.len() == i,
            forall|k: int| 0 <= k < order@.len() ==> #[trigger] order@[k] < i,
            forall|j: int| 0 <= j < i ==> #[trigger] appears(order@, j),
            forall|a: int, b: int|
                0 <= a < b < order@.len() ==> precedes(
                    keys@,
                    descending,
                    #[trigger] order@[a] as int,
                    #[trigger] order@[b] as int,
                ),
        decreases keys@.len() - i,
    {
        let mut p: usize = 0;
        while p < order.len() && !precedes_exec(keys, descending, i, order[p])
            invariant
                i < keys@.len(),
                order@.len() == i,
                forall|k: int| 0 <= k < order@.len() ==> #[trigger] order@[k] < i,
                p <= order@.len(),
                forall|q: int| 0 <= q < p ==> !precedes(keys@, descending, i as int, #[trigger] order@[q] as int),
            decreases order@.len() - p,
        {
            p = p + 1;
        }
        let ghost old_order = order@;
        order.insert(p, i);
        assert forall|a: int, b: int| 0 <= a < b < order@.len() implies precedes(
            keys@,
            descending,
            #[trigger] order@[a] as int,
            #[trigger] order@[b] as int,
        ) by {
            if b < p {
                assert(order@[a] == old_order[a] && order@[b] == old_order[b]);
            } else if b == p {
                assert(order@[a] == old_order[a]);
                assert(!precedes(keys@, descending, i as int, old_order[a] as int));
            } else if a < p {
                assert(order@[a] == old_order[a] && order@[b] == old_order[b - 1]);
            } else if a == p {
                assert(order@[b] == old_order[b - 1]);
                assert(precedes(keys@, descending, i as int, old_order[p as int] as int));
                if b - 1 > p {
                    assert(precedes(keys@, descending, old_order[p as int] as int, old_order[b - 1] as int));
                }
            } else {
                assert(order@[a] == old_order[a - 1] && order@[b] == old_order[b - 1]);
            }
        }
        assert forall|j: int| 0 <= j < i + 1 implies #[trigger] appears(order@, j) by {
            if j == i {
                assert(order@[p as int] == j);
            } else {
                assert(appears(old_order, j));
                let k = choose|k: int| 0 <= k < old_order.len() && old_order[k] == j;
                if k < p {
                    assert(order@[k] == j);
                } else {
                    assert(order@[k + 1] == j);
                }
            }
        }
        assert forall|k: int| 0 <= k < order@.len() implies #[trigger] order@[k] < i + 1 by {
            if k < p {
                assert(order@[k] == old_order[k]);
            } else if k > p {
                assert(order@[k] == old_order[k - 1]);
            }
        }
        i = i + 1;
    }
    order
}

/// How many of `count` completed runs retention removes to keep `limit`.
pub open spec fn excess(count: nat, limit: nat) -> nat {
    if count > limit {
        (count - limit) as nat
    } else {
        0
    }
}

/// The runs retention removes: the earliest-started runs beyond the limit,
/// in the order they started (ties in listing order).
pub open spec fn retention_victims_ok(started: Seq<i128>, limit: nat, r: Seq<usize>) -> bool {
    &&& r.len() == excess(started.len(), limit)
    &&& forall|k: int| 0 <= k < r.len() ==> #[trigger] r[k] < started.len()
    &&& forall|a: int, b: int|
        0 <= a < b < r.len() ==> precedes(started, false, #[trigger] r[a] as int, #[trigger] r[b] as int)
    &&& forall|k: int, j: int|
        0 <= k < r.len() && 0 <= j < started.len() && !r.contains(j as usize) ==> #[trigger] precedes(
            started,
            false,
            r[k] as int,
            j,
        )
}

/// The completed runs to remove so that at most `limit` remain, given when
/// each started.
pub fn retention_victims(started: &[i128], limit: usize) -> (r: Vec<usize>)
    ensures
        retention_victims_ok(started@, limit as nat, r@),
{
    let order = stable_order(started, false);
    let remove = if started.len() > limit {
        started.len() - limit
    } else {
        0
    };
    let mut out: Vec<usize> = Vec::new();
    let mut k: usize = 0;
    while k < remove
        invariant
            stably_sorted(started@, false, order@),
            remove <= order@.len(),
            k <= remove,
            out@ == order@.take(k as int),
        decreases remove - k,
    {
        out.push(order[k]);
        assert(out@ =~= order@.take(k + 1));
        k = k + 1;
    }
    assert forall|m: int, j: int|
        0 <= m < out@.len() && 0 <= j < started@.len() && !out@.contains(j as usize) implies #[trigger] precedes(
        started@,
        false,
        out@[m] as int,
        j,
    ) by {
        assert(appears(order@, j));
        let q = choose|q: int| 0 <= q < order@.len() && order@[q] == j;
        if q < remove {
            assert(out@[q] == j as usize);
        }
        assert(precedes(started@, false, order@[m] as int, order@[q] as int));
    }
    out
}

/// Retention keeps the newest runs: it removes exactly the runs beyond the
/// limit, and no removed run started after a kept one.
pub proof fn lemma_retention_keeps_newest(started: Seq<i128>, limit: nat, r: Seq<usize>)
    requires
        retention_victims_ok(started, limit, r),
    ensures
        started.len() - r.len() == if started.len() < limit { started.len() as int } else { limit as int },
        forall|k: int, j: int|
            0 <= k < r.len() && 0 <= j < started.len() && !r.contains(j as usize) ==> started[#[trigger] r[k] as int]
                <= #[trigger] started[j],
{
    assert forall|k: int, j: int|
        0 <= k < r.len() && 0 <= j < started.len() && !r.contains(j as usize) implies started[#[trigger] r[k] as int]
            <= #[trigger] started[j] by {
        assert(precedes(started, false, r[k] as int, j));
    }
}

/// A limit read from an environment value: the value when it is a `usize`,
/// the default otherwise, and never below `floor`.
pub open spec fn limit_from(value: Option<Seq<char>>, default: usize, floor: usize) -> usize {
    let v = match value {
        Some(t) => match parsed_usize(t) {
            Some(n) => n,
            None => default,
        },
        None => default,
    };
    if v < floor {
        floor
    } else {
        v
    }
}

fn limit_of(value: Option<&str>, default: usize, floor: usize) -> (r: usize)
    ensures
        r == limit_from(match value { Some(t) => Some(t@), None => None }, default, floor),
{
    let v = match value {
        Some(t) => {
            let chars = to_chars(t);
            match parse_usize(chars.as_slice()) {
                Some(n) => n,
                None => default,
            }
        },
        None => default,
    };
    if v < floor {
        floor
    } else {
        v
    }
}

/// How many completed runs are kept, from `SIMA_SENTINEL_RUN_RETENTION`:
/// 50 unless it holds a number, and at least 1.
pub fn retention_limit(value: Option<&str>) -> (r: usize)
    ensures
        r == limit_from(match value { Some(t) => Some(t@), None => None }, DEFAULT_RETENTION, 1),
{
    limit_of(value, DEFAULT_RETENTION, 1)
}

/// How many samples an active run may hold, from
/// `SIMA_SENTINEL_RUN_MAX_SAMPLES`: 21600 unless it holds a number, and at
/// least 2.
pub fn sample_limit(value: Option<&str>) -> (r: usize)
    ensures
        r == limit_from(match value { Some(t) => Some(t@), None => None }, DEFAULT_MAX_SAMPLES, 2),
{
    limit_of(value, DEFAULT_MAX_SAMPLES, 2)
}

/// Timestamps are nanoseconds since the Unix epoch; every UTC time that
/// chrono represents lies within this bound.
pub const MAX_STAMP_NANOS: i128 = 10_000_000_000_000_000_000_000;

pub open spec fn valid_stamp(t: i128) -> bool {
    -MAX_STAMP_NANOS <= t <= MAX_STAMP_NANOS
}

/// Whole milliseconds from `from` to `to`, and 0 when `to` is not later.
pub open spec fn millis_between(from: i128, to: i128) -> i64 {
    if to > from {
        ((to - from) / 1_000_000) as i64
    } else {
        0
    }
}

pub fn duration_ms(from: i128, to: i128) -> (r: i64)
    requires
        valid_stamp(from),
        valid_stamp(to),
    ensures
        r == millis_between(from, to),
{
    if to > from {
        ((to - from) / 1_000_000) as i64
    } else {
        0
    }
}

/// A run's duration: to its end, else to its last sample, else zero.
pub open spec fn run_duration_ms(started: i128, ended: Option<i128>, last_sample: Option<i128>) -> i64 {
    let end = match ended {
        Some(e) => e,
        None => match last_sample {
            Some(l) => l,
            None => started,
        },
    };
    millis_between(started, end)
}

pub fn summary_duration_ms(started: i128, ended: Option<i128>, last_sample: Option<i128>) -> (r: i64)
    requires
        valid_stamp(started),
        ended matches Some(e) ==> valid_stamp(e),
        last_sample matches Some(l) ==> valid_stamp(l),
    ensures
        r == run_duration_ms(started, ended, last_sample),
{
    let end = match ended {
        Some(e) => e,
        None => match last_sample {
            Some(l) => l,
            None => started,
        },
    };
    duration_ms(started, end)
}

/// Microseconds from the run's first sample to `t` (from `t` itself when
/// the run has none), 0 when not later or when it exceeds an `i64`.
pub open spec fn micros_since_first(first: Option<i128>, t: i128) -> i64 {
    let origin = match first {
        Some(f) => f,
        None => t,
    };
    if t > origin && (t - origin) / 1000 <= i64::MAX {
        ((t - origin) / 1000) as i64
    } else {
        0
    }
}

pub fn sample_elapsed_microseconds(first: Option<i128>, t: i128) -> (r: i64)
    requires
        first matches Some(f) ==> valid_stamp(f),
        valid_stamp(t),
    ensures
        r == micros_since_first(first, t),
{
    let origin = match first {
        Some(f) => f,
        None => t,
    };
    if t > origin && (t - origin) / 1000 <= i64::MAX as i128 {
        ((t - origin) / 1000) as i64
    } else {
        0
    }
}

/// Milliseconds from the run's first sample to `t`.
pub fn sample_elapsed_milliseconds(first: Option<i128>, t: i128) -> (r: i64)
    requires
        first matches Some(f) ==> valid_stamp(f),
        valid_stamp(t),
    ensures
        r == micros_since_first(first, t) / 1000,
{
    sample_elapsed_microseconds(first, t) / 1000
}

/// A run's comparison duration: milliseconds from its first to its last
/// sample, 0 without samples.
pub fn comparison_duration_milliseconds(first: Option<i128>, last: Option<i128>) -> (r: i64)
    requires
        first matches Some(f) ==> valid_stamp(f),
        last matches Some(l) ==> valid_stamp(l),
    ensures
        r == match last {
            Some(l) => micros_since_first(first, l) / 1000,
            None => 0,
        },
{
    match last {
        Some(l) => sample_elapsed_milliseconds(first, l),
        None => 0,
    }
}

/// The first captured sample is at elapsed time zero, and a later sample's
/// elapsed time is its distance from the first, whatever the run's start
/// (for distances an `i64` of microseconds holds).
pub proof fn lemma_elapsed_starts_at_first_sample(first: i128, t: i128)
    requires
        valid_stamp(first),
        valid_stamp(t),
    ensures
        micros_since_first(Some(first), first) == 0,
        t >= first && (t - first) / 1000 <= i64::MAX ==> micros_since_first(Some(first), t) == (t
            - first) / 1000,
{
}

/// The sampling interval recorded with a new run: the distance between the
/// last two cached samples, in whole milliseconds.
pub open spec fn interval_of(stamps: Seq<i128>) -> Option<u64> {
    if stamps.len() >= 2 {
        Some(millis_between(stamps[stamps.len() - 2], stamps[stamps.len() - 1]) as u64)
    } else {
        None
    }
}

/// Why an active run's journal cannot be trusted.
#[derive(Debug, Clone, Copy, PartialEq, Eq, Structural)]
pub enum JournalFault {
    /// The journal holds fewer bytes than its index says were committed.
    Short,
    /// The committed samples are not as many as the index counts.
    CountMismatch,
}

pub open spec fn journal_fault_text(f: JournalFault) -> Seq<char> {
    match f {
        JournalFault::Short => "active recording journal is shorter than its committed index"@,
        JournalFault::CountMismatch => "active recording sample count does not match its index"@,
    }
}

impl JournalFault {
    pub fn message(&self) -> (r: String)
        ensures
            r@ == journal_fault_text(*self),
    {
        match self {
            JournalFault::Short => copy_string("active recording journal is shorter than its committed index"),
            JournalFault::CountMismatch => copy_string("active recording sample count does not match its index"),
        }
    }
}

/// The uncommitted tail of a journal of `journal_bytes` bytes whose index
/// committed `committed_bytes`: readers stop at the committed length and an
/// append first drops the tail. A journal shorter than its committed length
/// has lost committed samples and is refused.
pub fn uncommitted_tail(journal_bytes: u64, committed_bytes: u64) -> (r: Result<u64, JournalFault>)
    ensures
        journal_bytes < committed_bytes ==> r == Err::<u64, JournalFault>(JournalFault::Short),
        journal_bytes >= committed_bytes ==> r == Ok::<u64, JournalFault>(
            (journal_bytes - committed_bytes) as u64,
        ),
{
    if journal_bytes < committed_bytes {
        Err(JournalFault::Short)
    } else {
        Ok(journal_bytes - committed_bytes)
    }
}

/// The committed samples read back must be exactly as many as the index
/// counts.
pub fn check_sample_count(read: usize, indexed: usize) -> (r: Result<(), JournalFault>)
    ensures
        read == indexed ==> r == Ok::<(), JournalFault>(()),
        read != indexed ==> r == Err::<(), JournalFault>(JournalFault::CountMismatch),
{
    if read == indexed {
        Ok(())
    } else {
        Err(JournalFault::CountMismatch)
    }
}

pub fn sample_interval_ms(stamps: &[i128]) -> (r: Option<u64>)
    requires
        forall|k: int| 0 <= k < stamps@.len() ==> valid_stamp(#[trigger] stamps@[k]),
    ensures
        r == interval_of(stamps@),
{
    let n = stamps.len();
    if n >= 2 {
        Some(duration_ms(stamps[n - 2], stamps[n - 1]) as u64)
    } else {
        None
    }
}

/// A run ID: the start time as text, a dash, and the slug of the name.
pub fn run_id(stamp_text: &str, name: &str) -> (r: String)
    ensures
        r@ == stamp_text@ + "-"@ + slug_text(name@),
{
    let s = slug(name);
    concat3(stamp_text, "-", s.as_str())
}

/// Whether the latest sample is appended to the active run: only when it is
/// newer than the last one recorded, and refused once the run holds the
/// sample limit.
pub open spec fn record_choice(last: Option<i128>, sample: i128, count: nat, limit: nat, name: Seq<char>) -> Result<bool, Seq<char>> {
    if last matches Some(l) && l >= sample {
        Ok(false)
    } else if count >= limit {
        Err("active checkpoint '"@ + name + "' reached the "@ + decimal_text(limit)
            + "-sample safety limit; stop it to save the captured data"@)
    } else {
        Ok(true)
    }
}

/// The store's decision when the cache's latest sample, taken at `sample`,
/// is recorded into the active run `name` holding `count` samples, the
/// newest taken at `last`: `Ok(false)` when the sample is not newer (nothing
/// is appended), the sample-limit refusal when the run is full, and
/// otherwise `Ok(true)` (the sample is appended).
pub fn record(last: Option<i128>, sample: i128, count: usize, limit: usize, name: &str) -> (r: Result<bool, RunError>)
    ensures
        match r {
            Ok(b) => record_choice(last, sample, count as nat, limit as nat, name@) == Ok::<bool, Seq<char>>(b),
            Err(e) => record_choice(last, sample, count as nat, limit as nat, name@) == Err::<bool, Seq<char>>(error_text(e))
                && (e matches RunError::SampleLimit(n, l) && n@ == name@ && l == limit),
        },
{
    if let Some(l) = last {
        if l >= sample {
            return Ok(false);
        }
    }
    if count >= limit {
        return Err(RunError::SampleLimit(copy_string(name), limit));
    }
    Ok(true)
}

/// Reading a CSV field back: a field in quotes loses them and each doubled
/// quote inside becomes one.
pub open spec fn csv_value(field: Seq<char>) -> Seq<char> {
    if field.len() >= 2 && field[0] == '"' && field.last() == '"' {
        undoubled(field.subrange(1, field.len() - 1))
    } else {
        field
    }
}

/// `w` with each pair of quotes collapsed to one, pairing from the end.
pub open spec fn undoubled(w: Seq<char>) -> Seq<char>
    decreases w.len(),
{
    if w.len() == 0 {
        seq![]
    } else if w.len() >= 2 && w.last() == '"' && w[w.len() - 2] == '"' {
        undoubled(w.subrange(0, w.len() - 2)).push('"')
    } else {
        undoubled(w.drop_last()).push(w.last())
    }
}

proof fn lemma_undoubled_doubled(v: Seq<char>)
    ensures
        undoubled(doubled_quotes(v)) == v,
    decreases v.len(),
{
    if v.len() > 0 {
        lemma_undoubled_doubled(v.drop_last());
        let d = doubled_quotes(v.drop_last());
        if v.last() == '"' {
            let w = d + seq!['"', '"'];
            assert(w.subrange(0, w.len() - 2) =~= d);
        } else {
            assert(d.push(v.last()).drop_last() =~= d);
        }
        assert(v.drop_last().push(v.last()) =~= v);
    }
}

/// Every value survives CSV quoting: reading back the field written for it
/// gives the value.
pub proof fn lemma_csv_field_round_trip(v: Seq<char>)
    ensures
        csv_value(csv_text(v)) == v,
{
    if exists|i: int| 0 <= i < v.len() && is_csv_special(#[trigger] v[i]) {
        let f = seq!['"'] + doubled_quotes(v) + seq!['"'];
        assert(f.subrange(1, f.len() - 1) =~= doubled_quotes(v));
        lemma_undoubled_doubled(v);
    } else {
        if v.len() >= 2 && v[0] == '"' {
            assert(is_csv_special(v[0]));
        }
    }
}

/// `load_many` names every run at most once: the IDs of the runs it returns
/// are distinct.
pub proof fn lemma_select_many_distinct(
    active: Option<(Seq<char>, Seq<char>)>,
    es: Seq<(Seq<char>, Seq<char>)>,
    selectors: Seq<Seq<char>>,
)
    ensures
        many_choice(active, es, selectors) matches Ok(v) ==> forall|i: int, j: int|
            0 <= i < j < v.len() ==> found_id(active, es, #[trigger] v[i]) != found_id(
                active,
                es,
                #[trigger] v[j],
            ),
    decreases selectors.len(),
{
    if selectors.len() > 0 {
        lemma_select_many_distinct(active, es, selectors.drop_last());
    }
}

/// A sample that is not newer than the last one recorded is never appended,
/// so recording the same cache twice appends it once.
pub proof fn lemma_record_skips_repeated_sample(t: i128, count: nat, limit: nat, name: Seq<char>)
    ensures
        record_choice(Some(t), t, count, limit, name) == Ok::<bool, Seq<char>>(false),
{
}

/// A slug is never empty, holds only ASCII letters, digits and dashes, and
/// has no dash at either end and no two dashes in a row.
pub open spec fn slug_shaped(s: Seq<char>) -> bool {
    &&& s.len() > 0
    &&& forall|i: int| 0 <= i < s.len() ==> is_ascii_alphanumeric(#[trigger] s[i]) || s[i] == '-'
    &&& s[0] != '-'
    &&& s.last() != '-'
    &&& forall|i: int| 0 <= i < s.len() - 1 ==> !(#[trigger] s[i] == '-' && s[i + 1] == '-')
}

proof fn lemma_slug_scan_shape(cs: Seq<char>)
    ensures
        ({
            let (out, sep) = slug_scan(cs);
            &&& forall|i: int| 0 <= i < out.len() ==> is_ascii_alphanumeric(#[trigger] out[i]) || out[i] == '-'
            &&& out.len() > 0 ==> out[0] != '-'
            &&& forall|i: int| 0 <= i < out.len() - 1 ==> !(#[trigger] out[i] == '-' && out[i + 1] == '-')
            &&& sep <==> (out.len() > 0 && out.last() == '-')
        }),
    decreases cs.len(),
{
    if cs.len() > 0 {
        lemma_slug_scan_shape(cs.drop_last());
    }
}

proof fn lemma_strip_shape(s: Seq<char>)
    requires
        forall|i: int| 0 <= i < s.len() ==> is_ascii_alphanumeric(#[trigger] s[i]) || s[i] == '-',
        s.len() > 0 ==> s[0] != '-',
        forall|i: int| 0 <= i < s.len() - 1 ==> !(#[trigger] s[i] == '-' && s[i + 1] == '-'),
    ensures
        strip_trailing_dashes(s).len() > 0 ==> slug_shaped(strip_trailing_dashes(s)),
    decreases s.len(),
{
    if s.len() > 0 && s.last() == '-' {
        let t = s.drop_last();
        assert forall|i: int| 0 <= i < t.len() - 1 implies !(#[trigger] t[i] == '-' && t[i + 1] == '-') by {
            assert(t[i] == s[i] && t[i + 1] == s[i + 1]);
        }
        lemma_strip_shape(t);
    }
}

/// Every slug, and so the tail of every run ID, is shaped for a file name.
pub proof fn lemma_slug_shape(name: Seq<char>)
    ensures
        slug_shaped(slug_text(name)),
{
    let cs = flatten(name.map_values(|c: char| lowercase_of(c)));
    lemma_slug_scan_shape(cs);
    lemma_strip_shape(slug_scan(cs).0);
    if strip_trailing_dashes(slug_scan(cs).0).len() == 0 {
        reveal_strlit("run");
        assert(slug_text(name) =~= seq!['r', 'u', 'n']);
    }
}

/// The metric keys of one CSV sample: every defined key and every key the
/// sample holds, each once, in text order.
pub fn csv_keys(defined: &[String], present: &[String]) -> (r: Vec<String>)
    ensures
        strictly_sorted(texts_of(r@)),
        forall|t: Seq<char>| #[trigger] texts_of(r@).contains(t) <==> (texts_of(defined@).contains(t)
            || texts_of(present@).contains(t)),
{
    let mut out: Vec<String> = Vec::new();
    let mut i: usize = 0;
    while i < defined.len()
        invariant
            i <= defined@.len(),
            strictly_sorted(texts_of(out@)),
            forall|t: Seq<char>| #[trigger] texts_of(out@).contains(t) <==> texts_of(defined@).take(i as int).contains(t),
        decreases defined@.len() - i,
    {
        let ghost before = texts_of(defined@).take(i as int);
        insert_sorted(&mut out, defined[i].as_str());
        assert forall|t: Seq<char>| #[trigger] texts_of(defined@).take(i + 1).contains(t) <==> (before.contains(t) || t == defined@[i as int]@) by {
            let after = texts_of(defined@).take(i + 1);
            assert(after =~= before.push(defined@[i as int]@));
            if after.contains(t) {
                let q = choose|q: int| 0 <= q < after.len() && after[q] == t;
                if q < i {
                    assert(before[q] == t);
                }
            }
            if before.contains(t) {
                let q = choose|q: int| 0 <= q < before.len() && before[q] == t;
                assert(after[q] == t);
            }
            if t == defined@[i as int]@ {
                assert(after[i as int] == t);
            }
        }
        i = i + 1;
    }
    assert(texts_of(defined@).take(defined@.len() as int) =~= texts_of(defined@));
    let mut j: usize = 0;
    while j < present.len()
        invariant
            j <= present@.len(),
            strictly_sorted(texts_of(out@)),
            forall|t: Seq<char>| #[trigger] texts_of(out@).contains(t) <==> (texts_of(defined@).contains(t)
                || texts_of(present@).take(j as int).contains(t)),
        decreases present@.len() - j,
    {
        let ghost before = texts_of(present@).take(j as int);
        insert_sorted(&mut out, present[j].as_str());
        assert forall|t: Seq<char>| #[trigger] texts_of(present@).take(j + 1).contains(t) <==> (before.contains(t) || t == present@[j as int]@) by {
            let after = texts_of(present@).take(j + 1);
            assert(after =~= before.push(present@[j as int]@));
            if after.contains(t) {
                let q = choose|q: int| 0 <= q < after.len() && after[q] == t;
                if q < j {
                    assert(before[q] == t);
                }
            }
            if before.contains(t) {
                let q = choose|q: int| 0 <= q < before.len() && before[q] == t;
                assert(after[q] == t);
            }
            if t == present@[j as int]@ {
                assert(after[j as int] == t);
            }
        }
        j = j + 1;
    }
    assert(texts_of(present@).take(present@.len() as int) =~= texts_of(present@));
    out
}

} // verus!
