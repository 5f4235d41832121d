//! Resolution of a request against the content root, as a state machine.
//!
//! The machine never touches the filesystem itself. Each step hands back an
//! action: inspect a path, read a file, list a directory, or respond. The
//! caller performs it and feeds back what it found as the next event.

use vstd::prelude::*;
use crate::error::RequestError;
use crate::form::{form_outcome, form_response};
use crate::listing::{directory_listing, lemma_listing_ignores_order, listing};
use crate::request::{
    gemini_scheme, is_idle_segment, is_plain_name, kept, line_path, line_scheme,
    parent_segment, parse_request, raw_segments, request_of, request_segments,
};
use crate::response::{
    is_success, not_found, not_found_meta, opt_view, success, text_gemini, ResponseStatus,
    BAD_REQUEST, NOT_FOUND, SUCCESS, TEMPORARY_FAILURE,
};
use crate::text::{
    chars_of, join_strings, joined, lemma_split_pieces_free, matches_at, push_all, seqs,
    split_chars, split_on, string_of, views,
};

verus! {

/// What is found at a path.
#[derive(Debug, Clone, Copy, PartialEq, Eq, Structural)]
pub enum EntryKind {
    Missing,
    File,
    Directory,
}

/// What the caller found when it performed the last action.
pub enum Event {
    /// The kind of what is at the inspected path.
    Kind(EntryKind),
    /// The text of the file read, or `None` when it could not be read.
    Contents(Option<String>),
    /// The names of the listed directory's entries, or `None` when it could
    /// not be listed.
    Entries(Option<Vec<String>>),
}

/// What the caller is to do next.
pub enum Action {
    /// Find out what is at this path.
    Inspect(String),
    /// Read this file as text.
    Read(String),
    /// List the names of this directory's entries.
    List(String),
    /// Send this response and close the connection.
    Respond(ResponseStatus),
}

/// Where resolution stands between two actions.
pub enum Stage {
    /// Waiting for the text of a form document.
    Form { query: Option<String> },
    /// Waiting for the kind of the target.
    Target { path: String, name: String, segments: Vec<String> },
    /// Waiting for the text of a regular file.
    File,
    /// Waiting for the text of a directory's index document.
    Index { path: String, name: String, segments: Vec<String> },
    /// Waiting for the entries of a directory without a usable index.
    Listing { name: String, segments: Vec<String> },
    /// A response has been given.
    Done,
}

/// The view of an [`Event`].
pub enum EventModel {
    Kind(EntryKind),
    Contents(Option<Seq<char>>),
    Entries(Option<Seq<Seq<char>>>),
}

/// The view of an [`Action`].
pub enum ActionModel {
    Inspect(Seq<char>),
    Read(Seq<char>),
    List(Seq<char>),
    Respond((u32, Seq<char>, Option<Seq<char>>)),
}

/// The view of a [`Stage`].
pub enum StageModel {
    Form { query: Option<Seq<char>> },
    Target { path: Seq<char>, name: Seq<char>, segs: Seq<Seq<char>> },
    File,
    Index { path: Seq<char>, name: Seq<char>, segs: Seq<Seq<char>> },
    Listing { name: Seq<char>, segs: Seq<Seq<char>> },
    Done,
}

impl View for Event {
    type V = EventModel;

    open spec fn view(&self) -> EventModel {
        match self {
            Event::Kind(k) => EventModel::Kind(*k),
            Event::Contents(c) => EventModel::Contents(opt_view(*c)),
            Event::Entries(e) => EventModel::Entries(
                match e {
                    Some(v) => Some(views(v@)),
                    None => None,
                },
            ),
        }
    }
}

impl View for Action {
    type V = ActionModel;

    open spec fn view(&self) -> ActionModel {
        match self {
            Action::Inspect(p) => ActionModel::Inspect(p@),
            Action::Read(p) => ActionModel::Read(p@),
            Action::List(p) => ActionModel::List(p@),
            Action::Respond(r) => ActionModel::Respond(r@),
        }
    }
}

impl View for Stage {
    type V = StageModel;

    open spec fn view(&self) -> StageModel {
        match self {
            Stage::Form { query } => StageModel::Form { query: opt_view(*query) },
            Stage::Target { path, name, segments } => StageModel::Target {
                path: path@,
                name: name@,
                segs: views(segments@),
            },
            Stage::File => StageModel::File,
            Stage::Index { path, name, segments } => StageModel::Index {
                path: path@,
                name: name@,
                segs: views(segments@),
            },
            Stage::Listing { name, segments } => StageModel::Listing {
                name: name@,
                segs: views(segments@),
            },
            Stage::Done => StageModel::Done,
        }
    }
}

/// The filesystem path of the target named by `segs` under `root`.
pub open spec fn target_path(root: Seq<char>, segs: Seq<Seq<char>>) -> Seq<char> {
    if segs.len() == 0 {
        root
    } else {
        root + seq!['/'] + joined(segs, '/')
    }
}

/// The name of a directory's index document.
pub open spec fn index_name() -> Seq<char> {
    seq!['i', 'n', 'd', 'e', 'x', '.', 'g', 'm', 'i']
}

/// The path of the index document of the directory at `dir`.
pub open spec fn index_path(dir: Seq<char>) -> Seq<char> {
    dir + seq!['/'] + index_name()
}

/// The ending of the names of form documents.
pub open spec fn form_suffix() -> Seq<char> {
    seq!['f', 'o', 'r', 'm', '.', 'g', 'm', 'i']
}

/// Whether `s` ends with `suffix`.
pub open spec fn ends_with(s: Seq<char>, suffix: Seq<char>) -> bool {
    suffix.len() <= s.len() && s.skip(s.len() - suffix.len()) == suffix
}

/// A request for a form document: its last segment ends with `form.gmi`.
pub open spec fn is_form_request(segs: Seq<Seq<char>>) -> bool {
    segs.len() > 0 && ends_with(segs.last(), form_suffix())
}

/// The name of the content root: its last component that is neither empty nor `.`.
pub open spec fn root_name(root: Seq<char>) -> Seq<char> {
    let k = kept(split_on(root, '/'));
    if k.len() > 0 {
        k.last()
    } else {
        root
    }
}

/// The name of the directory reached by `segs`.
pub open spec fn dir_name(root: Seq<char>, segs: Seq<Seq<char>>) -> Seq<char> {
    if segs.len() > 0 {
        segs.last()
    } else {
        root_name(root)
    }
}

/// The response to a request that was refused before resolution.
pub open spec fn error_outcome(e: RequestError) -> (u32, Seq<char>, Option<Seq<char>>) {
    match e {
        RequestError::UnsupportedScheme => (BAD_REQUEST, "unsupported scheme"@, None),
        RequestError::IoReadError => (NOT_FOUND, not_found_meta(), None),
        _ => (BAD_REQUEST, "bad request"@, None),
    }
}

/// The response to an event that the stage does not expect, or to a
/// directory that could not be listed.
pub open spec fn temporary_failure() -> (u32, Seq<char>, Option<Seq<char>>) {
    (TEMPORARY_FAILURE, "temporary failure"@, None)
}

/// The first stage and action for the request line `line`.
pub open spec fn begin_model(root: Seq<char>, line: Seq<u8>) -> (StageModel, ActionModel) {
    match request_of(line) {
        Err(e) => (StageModel::Done, ActionModel::Respond(error_outcome(e))),
        Ok(req) => {
            let segs = req.0;
            let path = target_path(root, segs);
            if is_form_request(segs) {
                (StageModel::Form { query: req.1 }, ActionModel::Read(path))
            } else {
                (
                    StageModel::Target { path, name: dir_name(root, segs), segs },
                    ActionModel::Inspect(path),
                )
            }
        },
    }
}

/// The next stage and action after `event`.
pub open spec fn step_model(stage: StageModel, event: EventModel) -> (StageModel, ActionModel) {
    let failed = (StageModel::Done, ActionModel::Respond(temporary_failure()));
    let missing = (StageModel::Done, ActionModel::Respond((NOT_FOUND, not_found_meta(), None)));
    match stage {
        StageModel::Form { query } => match event {
            EventModel::Contents(c) => (StageModel::Done, ActionModel::Respond(form_outcome(c, query))),
            _ => failed,
        },
        StageModel::Target { path, name, segs } => match event {
            EventModel::Kind(EntryKind::Missing) => missing,
            EventModel::Kind(EntryKind::File) => (StageModel::File, ActionModel::Read(path)),
            EventModel::Kind(EntryKind::Directory) => (
                StageModel::Index { path, name, segs },
                ActionModel::Read(index_path(path)),
            ),
            _ => failed,
        },
        StageModel::File => match event {
            EventModel::Contents(Some(c)) => (
                StageModel::Done,
                ActionModel::Respond((SUCCESS, text_gemini(), Some(c))),
            ),
            EventModel::Contents(None) => missing,
            _ => failed,
        },
        StageModel::Index { path, name, segs } => match event {
            EventModel::Contents(Some(c)) => (
                StageModel::Done,
                ActionModel::Respond((SUCCESS, text_gemini(), Some(c))),
            ),
            EventModel::Contents(None) => (StageModel::Listing { name, segs }, ActionModel::List(path)),
            _ => failed,
        },
        StageModel::Listing { name, segs } => match event {
            EventModel::Entries(Some(es)) => (
                StageModel::Done,
                ActionModel::Respond((SUCCESS, text_gemini(), Some(listing(name, segs, es)))),
            ),
            _ => failed,
        },
        StageModel::Done => failed,
    }
}

/// The response to a request refused before resolution.
pub fn error_response(e: RequestError) -> (r: ResponseStatus)
    ensures
        r@ == error_outcome(e),
        r.wf(),
{
    match e {
        RequestError::UnsupportedScheme => ResponseStatus::new(
            BAD_REQUEST,
            "unsupported scheme".to_owned(),
            None,
        ),
        RequestError::IoReadError => not_found(),
        _ => ResponseStatus::new(BAD_REQUEST, "bad request".to_owned(), None),
    }
}

fn temporary_failure_response() -> (r: ResponseStatus)
    ensures
        r@ == temporary_failure(),
        r.wf(),
{
    ResponseStatus::new(TEMPORARY_FAILURE, "temporary failure".to_owned(), None)
}

/// Joins the content root and the segments into a filesystem path.
pub fn join_target(root: &str, segments: &Vec<String>) -> (r: String)
    ensures
        r@ == target_path(root@, views(segments@)),
{
    let mut out = chars_of(root);
    if segments.len() > 0 {
        out.push('/');
        push_all(&mut out, &join_strings(segments, '/'));
    }
    string_of(&out)
}

/// The path of the index document of the directory at `dir`.
fn join_index(dir: &String) -> (r: String)
    ensures
        r@ == index_path(dir@),
{
    let mut out = chars_of(dir.as_str());
    out.push('/');
    let name: Vec<char> = vec!['i', 'n', 'd', 'e', 'x', '.', 'g', 'm', 'i'];
    push_all(&mut out, &name);
    proof {
        assert(name@ =~= index_name());
    }
    string_of(&out)
}

/// Whether the request is for a form document.
pub fn is_form_target(segments: &Vec<String>) -> (r: bool)
    ensures
        r == is_form_request(views(segments@)),
{
    if segments.len() == 0 {
        return false;
    }
    let last = chars_of(segments[segments.len() - 1].as_str());
    let suffix: Vec<char> = vec!['f', 'o', 'r', 'm', '.', 'g', 'm', 'i'];
    proof {
        assert(suffix@ =~= form_suffix());
        assert(views(segments@).last() == last@);
    }
    if last.len() < suffix.len() {
        return false;
    }
    let r = matches_at(&last, last.len() - suffix.len(), &suffix);
    proof {
        let tail = last@.skip(last.len() - suffix.len());
        assert(tail.take(suffix.len() as int) =~= tail);
    }
    r
}

/// The name of the content root: its last component that is neither empty nor `.`.
pub fn content_root_name(root: &str) -> (r: String)
    ensures
        r@ == root_name(root@),
{
    let text = chars_of(root);
    let pieces = split_chars(&text, '/');
    let ghost ps = seqs(pieces@);
    proof {
        assert(text@ == root@);
    }
    let mut i: usize = pieces.len();
    proof {
        assert(ps.take(i as int) =~= ps);
    }
    while i > 0
        invariant
            i <= pieces.len(),
            ps == seqs(pieces@),
            ps == split_on(root@, '/'),
            kept(ps.take(i as int)) == kept(ps),
        decreases i,
    {
        proof {
            assert(ps.take(i as int).drop_last() =~= ps.take(i - 1));
            assert(ps.take(i as int).last() == pieces@[i - 1]@);
        }
        let piece = &pieces[i - 1];
        let idle = piece.len() == 0 || (piece.len() == 1 && piece[0] == '.');
        proof {
            if piece.len() == 1 && !idle {
                assert(piece@ != seq!['.']) by {
                    if piece@ == seq!['.'] {
                        assert(piece@[0] == '.');
                    }
                }
            }
            if piece.len() == 1 && idle {
                assert(piece@ =~= seq!['.']);
            }
            assert(idle == is_idle_segment(piece@));
        }
        if !idle {
            proof {
                assert(kept(ps.take(i as int)).last() == piece@);
            }
            return string_of(piece);
        }
        i = i - 1;
    }
    proof {
        assert(ps.take(0) =~= Seq::<Seq<char>>::empty());
        assert(text@ == root@);
    }
    string_of(&text)
}

/// Starts resolution of the request line `line` under `root`.
pub fn begin(root: &str, line: Vec<u8>) -> (r: (Stage, Action))
    ensures
        (r.0@, r.1@) == begin_model(root@, line@),
{
    let request = match parse_request(line) {
        Ok(req) => req,
        Err(e) => return (Stage::Done, Action::Respond(error_response(e))),
    };
    let path = join_target(root, &request.segments);
    if is_form_target(&request.segments) {
        return (Stage::Form { query: request.query }, Action::Read(path));
    }
    let name = if request.segments.len() > 0 {
        request.segments[request.segments.len() - 1].clone()
    } else {
        content_root_name(root)
    };
    let inspect = path.clone();
    (Stage::Target { path, name, segments: request.segments }, Action::Inspect(inspect))
}

/// Takes the caller's finding for the last action and gives the next one.
pub fn step(stage: Stage, event: Event) -> (r: (Stage, Action))
    ensures
        (r.0@, r.1@) == step_model(stage@, event@),
{
    match stage {
        Stage::Form { query } => match event {
            Event::Contents(c) => (Stage::Done, Action::Respond(form_response(c, query))),
            _ => (Stage::Done, Action::Respond(temporary_failure_response())),
        },
        Stage::Target { path, name, segments } => match event {
            Event::Kind(EntryKind::Missing) => (Stage::Done, Action::Respond(not_found())),
            Event::Kind(EntryKind::File) => (Stage::File, Action::Read(path)),
            Event::Kind(EntryKind::Directory) => {
                let index = join_index(&path);
                (Stage::Index { path, name, segments }, Action::Read(index))
            },
            _ => (Stage::Done, Action::Respond(temporary_failure_response())),
        },
        Stage::File => match event {
            Event::Contents(Some(c)) => (Stage::Done, Action::Respond(success(c))),
            Event::Contents(None) => (Stage::Done, Action::Respond(not_found())),
            _ => (Stage::Done, Action::Respond(temporary_failure_response())),
        },
        Stage::Index { path, name, segments } => match event {
            Event::Contents(Some(c)) => (Stage::Done, Action::Respond(success(c))),
            Event::Contents(None) => (Stage::Listing { name, segments }, Action::List(path)),
            _ => (Stage::Done, Action::Respond(temporary_failure_response())),
        },
        Stage::Listing { name, segments } => match event {
            Event::Entries(Some(entries)) => {
                let body = directory_listing(name.as_str(), &segments, &entries);
                (Stage::Done, Action::Respond(success(body)))
            },
            _ => (Stage::Done, Action::Respond(temporary_failure_response())),
        },
        Stage::Done => (Stage::Done, Action::Respond(temporary_failure_response())),
    }
}

/// The path an action is about, if any.
pub open spec fn action_path(a: ActionModel) -> Option<Seq<char>> {
    match a {
        ActionModel::Inspect(p) => Some(p),
        ActionModel::Read(p) => Some(p),
        ActionModel::List(p) => Some(p),
        ActionModel::Respond(_) => None,
    }
}

/// Segments that each name one entry of a directory.
pub open spec fn plain_names(segs: Seq<Seq<char>>) -> bool {
    forall|i: int| 0 <= i < segs.len() ==> is_plain_name(#[trigger] segs[i])
}

/// Whether `p` is the content root followed by plain names only.
pub open spec fn under_root(root: Seq<char>, p: Seq<char>) -> bool {
    exists|segs: Seq<Seq<char>>| plain_names(segs) && p == target_path(root, segs)
}

/// What a stage remembers of paths lies under the content root.
pub open spec fn stage_confined(root: Seq<char>, stage: StageModel) -> bool {
    match stage {
        StageModel::Target { path, segs, .. } => plain_names(segs) && path == target_path(root, segs),
        StageModel::Index { path, segs, .. } => plain_names(segs) && path == target_path(root, segs),
        StageModel::Listing { segs, .. } => plain_names(segs),
        _ => true,
    }
}

/// The action reached after feeding `events` in order, from `stage` and its
/// pending `action`; feeding stops once a response is given.
pub open spec fn run_model(stage: StageModel, action: ActionModel, events: Seq<EventModel>) -> ActionModel
    decreases events.len(),
{
    if events.len() == 0 || stage is Done {
        action
    } else {
        let next = step_model(stage, events[0]);
        run_model(next.0, next.1, events.skip(1))
    }
}

/// Two findings that tell the same about the content root: equal, or two
/// listings of the same entries in any order.
pub open spec fn same_finding(a: EventModel, b: EventModel) -> bool {
    match (a, b) {
        (EventModel::Entries(Some(x)), EventModel::Entries(Some(y))) => x.to_multiset() == y.to_multiset(),
        _ => a == b,
    }
}

proof fn lemma_kept_plain(ps: Seq<Seq<char>>)
    requires
        forall|i: int| 0 <= i < ps.len() ==> !(#[trigger] ps[i]).contains('/'),
        !ps.contains(parent_segment()),
    ensures
        plain_names(kept(ps)),
    decreases ps.len(),
{
    if ps.len() > 0 {
        let init = ps.drop_last();
        assert(!init.contains(parent_segment())) by {
            if init.contains(parent_segment()) {
                let k = choose|k: int| 0 <= k < init.len() && init[k] == parent_segment();
                assert(ps[k] == parent_segment());
            }
        }
        assert forall|i: int| 0 <= i < init.len() implies !(#[trigger] init[i]).contains('/') by {
            assert(init[i] == ps[i]);
        }
        lemma_kept_plain(init);
        assert(ps[ps.len() - 1] == ps.last());
        assert(ps.last() != parent_segment());
    }
}

/// The segments of every accepted request are plain names.
pub proof fn lemma_request_segments_plain(line: Seq<u8>)
    requires
        request_of(line) is Ok,
    ensures
        plain_names(request_segments(line)),
{
    let path = line_path(line)->0;
    if path.len() > 0 && path[0] == '/' {
        lemma_split_pieces_free(path.skip(1), '/');
    }
    lemma_kept_plain(raw_segments(path));
}

proof fn lemma_target_under_root(root: Seq<char>, segs: Seq<Seq<char>>)
    requires
        plain_names(segs),
    ensures
        under_root(root, target_path(root, segs)),
        under_root(root, index_path(target_path(root, segs))),
{
    let with_index = segs.push(index_name());
    assert(with_index.drop_last() =~= segs);
    assert forall|i: int| 0 <= i < with_index.len() implies is_plain_name(#[trigger] with_index[i]) by {
        if i < segs.len() {
            assert(with_index[i] == segs[i]);
        } else {
            assert(with_index[i] == index_name());
            assert(!index_name().contains('/')) by {
                if index_name().contains('/') {
                    let k = choose|k: int| 0 <= k < index_name().len() && index_name()[k] == '/';
                }
            }
            assert(index_name() != parent_segment()) by {
                assert(index_name().len() != parent_segment().len());
            }
            assert(index_name() != seq!['.']) by {
                assert(index_name().len() != 1);
            }
        }
    }
    if segs.len() > 0 {
        assert(joined(with_index, '/') == joined(segs, '/') + seq!['/'] + index_name());
    } else {
        assert(joined(with_index, '/') == index_name());
    }
    assert(target_path(root, with_index) =~= index_path(target_path(root, segs)));
    assert(plain_names(with_index));
}

/// Whatever the request line, the first path that resolution asks about, and
/// the paths that it remembers, lie under the content root: no segment of
/// them is empty, `.`, `..` or holds a `/`.
pub proof fn lemma_begin_stays_under_root(root: Seq<char>, line: Seq<u8>)
    ensures
        stage_confined(root, begin_model(root, line).0),
        action_path(begin_model(root, line).1) is Some ==> under_root(
            root,
            action_path(begin_model(root, line).1)->0,
        ),
{
    if request_of(line) is Ok {
        lemma_request_segments_plain(line);
        lemma_target_under_root(root, request_segments(line));
    }
}

/// From a stage whose paths lie under the content root, every step asks only
/// about paths under the content root, and stays so.
pub proof fn lemma_step_stays_under_root(root: Seq<char>, stage: StageModel, event: EventModel)
    requires
        stage_confined(root, stage),
    ensures
        stage_confined(root, step_model(stage, event).0),
        action_path(step_model(stage, event).1) is Some ==> under_root(
            root,
            action_path(step_model(stage, event).1)->0,
        ),
{
    match stage {
        StageModel::Target { path, segs, .. } => lemma_target_under_root(root, segs),
        StageModel::Index { path, segs, .. } => lemma_target_under_root(root, segs),
        _ => {},
    }
}

/// A request whose path holds a `..` segment is refused as a bad request
/// before any path is looked at.
pub proof fn lemma_parent_segment_refused(root: Seq<char>, line: Seq<u8>)
    requires
        line_scheme(line) == Some(gemini_scheme()),
        line_path(line) is Some,
        raw_segments(line_path(line)->0).contains(parent_segment()),
    ensures
        begin_model(root, line) == (
            StageModel::Done,
            ActionModel::Respond((BAD_REQUEST, "bad request"@, None)),
        ),
{
}

/// A request for a scheme other than `gemini` is answered with the
/// bad-request code and no body, before any path is looked at.
pub proof fn lemma_other_scheme_refused(root: Seq<char>, line: Seq<u8>)
    requires
        line_scheme(line) is Some,
        line_scheme(line)->0 != gemini_scheme(),
    ensures
        begin_model(root, line) == (
            StageModel::Done,
            ActionModel::Respond((BAD_REQUEST, "unsupported scheme"@, None)),
        ),
{
}

/// A request that resolves to an existing regular file is answered with
/// success, and the body is exactly the file's text.
pub proof fn lemma_regular_file_served(root: Seq<char>, line: Seq<u8>, contents: Seq<char>)
    requires
        begin_model(root, line).0 is Target,
    ensures
        ({
            let first = begin_model(root, line);
            let second = step_model(first.0, EventModel::Kind(EntryKind::File));
            let last = step_model(second.0, EventModel::Contents(Some(contents)));
            &&& first.1 == ActionModel::Inspect(target_path(root, request_segments(line)))
            &&& second.1 == ActionModel::Read(target_path(root, request_segments(line)))
            &&& last.0 is Done
            &&& last.1 == ActionModel::Respond((SUCCESS, text_gemini(), Some(contents)))
        }),
{
}

/// A request that resolves to nothing is answered with a permanent failure
/// and no body: a missing target, or a form document that cannot be read.
pub proof fn lemma_missing_target_not_found(root: Seq<char>, line: Seq<u8>)
    ensures
        begin_model(root, line).0 is Target ==> step_model(
            begin_model(root, line).0,
            EventModel::Kind(EntryKind::Missing),
        ) == (StageModel::Done, ActionModel::Respond((NOT_FOUND, not_found_meta(), None))),
        begin_model(root, line).0 is Form ==> step_model(
            begin_model(root, line).0,
            EventModel::Contents(None),
        ) == (StageModel::Done, ActionModel::Respond((NOT_FOUND, not_found_meta(), None))),
        NOT_FOUND / 10 == 5,
{
}

proof fn lemma_same_findings_same_step(stage: StageModel, a: EventModel, b: EventModel)
    requires
        same_finding(a, b),
    ensures
        step_model(stage, a) == step_model(stage, b),
{
    match (a, b) {
        (EventModel::Entries(Some(x)), EventModel::Entries(Some(y))) => {
            match stage {
                StageModel::Listing { name, segs } => lemma_listing_ignores_order(name, segs, x, y),
                _ => {},
            }
        },
        _ => {},
    }
}

proof fn lemma_same_findings_same_run(
    stage: StageModel,
    action: ActionModel,
    a: Seq<EventModel>,
    b: Seq<EventModel>,
)
    requires
        a.len() == b.len(),
        forall|i: int| 0 <= i < a.len() ==> same_finding(#[trigger] a[i], b[i]),
    ensures
        run_model(stage, action, a) == run_model(stage, action, b),
    decreases a.len(),
{
    if a.len() > 0 && !(stage is Done) {
        lemma_same_findings_same_step(stage, a[0], b[0]);
        let next = step_model(stage, a[0]);
        assert forall|i: int| 0 <= i < a.skip(1).len() implies same_finding(#[trigger] a.skip(1)[i], b.skip(1)[i]) by {
            assert(a.skip(1)[i] == a[i + 1]);
            assert(b.skip(1)[i] == b[i + 1]);
        }
        lemma_same_findings_same_run(next.0, next.1, a.skip(1), b.skip(1));
    }
}

/// Serving is idempotent: the same request line, against a content root that
/// reports the same findings (directory entries in any order), gets the same
/// response.
pub proof fn lemma_same_request_same_response(
    root: Seq<char>,
    line: Seq<u8>,
    a: Seq<EventModel>,
    b: Seq<EventModel>,
)
    requires
        a.len() == b.len(),
        forall|i: int| 0 <= i < a.len() ==> same_finding(#[trigger] a[i], b[i]),
    ensures
        run_model(begin_model(root, line).0, begin_model(root, line).1, a) == run_model(
            begin_model(root, line).0,
            begin_model(root, line).1,
            b,
        ),
{
    lemma_same_findings_same_run(begin_model(root, line).0, begin_model(root, line).1, a, b);
}

/// A well-formed response: a code from 10 to 69, and a body only in the success class.
pub open spec fn outcome_wf(t: (u32, Seq<char>, Option<Seq<char>>)) -> bool {
    &&& 10 <= t.0 <= 69
    &&& t.2 is Some ==> is_success(t.0)
}

/// An action that responds, responds with a well-formed response.
pub open spec fn action_wf(a: ActionModel) -> bool {
    match a {
        ActionModel::Respond(t) => outcome_wf(t),
        _ => true,
    }
}

/// Whatever the request line and whatever the caller finds, every response
/// that resolution gives is well formed.
pub proof fn lemma_responses_well_formed(
    root: Seq<char>,
    line: Seq<u8>,
    stage: StageModel,
    event: EventModel,
)
    ensures
        action_wf(begin_model(root, line).1),
        action_wf(step_model(stage, event).1),
{
}

} // verus!
