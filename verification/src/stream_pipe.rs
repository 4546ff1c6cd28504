//! From a source of URLs to a source of byte objects: what the pipe decides
//! between the request and the object that it hands on.

use vstd::prelude::*;
use crate::error::Error;
use crate::text::{as_unsigned, decimal, push_decimal, to_unsigned};
use crate::common::TransferURL;
use crate::traits::Metadata;
use crate::utils::{hash_of, hash_string, hex_number};

verus! {

/// A blob that lies in a scratch file of its own.
#[derive(Debug)]
pub struct ByteStream {
    /// The scratch file. Whoever holds the object removes it.
    pub path: String,
    /// Length in bytes.
    pub length: u64,
    /// Seconds since the epoch.
    pub modified_at: u64,
    /// What the content is, where something is known of it.
    pub content_type: Option<String>,
}

/// A source of URLs, seen as a source of byte objects.
pub struct ByteStreamPipe<Source> {
    pub source: Source,
    /// Where the scratch files lie.
    pub buffer_path: String,
    /// Whether the time of the snapshot item stands for that of the object.
    pub use_snapshot_last_modified: bool,
}

pub const BUFFER_SUFFIX: &'static str = ".buffer";

/// The name of the scratch file for a URL: under the buffer directory, the
/// hash of the URL, the time and the suffix, with dots between. The time is
/// the moment at which the object was asked for, in nanoseconds since the
/// epoch, so that two fetches of one URL do not share a file.
pub open spec fn buffer_file(buffer_path: Seq<char>, url_hash: Seq<char>, time: nat) -> Seq<char> {
    buffer_path + seq!['/'] + url_hash + seq!['.'] + decimal(time) + BUFFER_SUFFIX@
}

/// The name of the scratch file under `buffer_path` for what hashes to
/// `url_hash`, asked for at the time `time`.
pub fn buffer_file_path(buffer_path: &str, url_hash: &str, time: u64) -> (path: String)
    ensures
        path@ == buffer_file(buffer_path@, url_hash@, time as nat),
{
    let mut path = String::from_str(buffer_path);
    path.push('/');
    path.append(url_hash);
    path.push('.');
    push_decimal(&mut path, time);
    path.append(BUFFER_SUFFIX);
    path
}

/// The moment that a date in the format of RFC 2822 names, in seconds since
/// the epoch, as the crate chrono reads it; none where the text is no such
/// date.
pub uninterp spec fn rfc2822_timestamp_of(text: Seq<char>) -> Option<i64>;

/// `DateTime::parse_from_rfc2822` and `timestamp` of the crate chrono: the
/// text read as a date, and the date as seconds since the epoch.
#[verifier::external_body]
pub(crate) fn rfc2822_timestamp(text: &str) -> (r: Option<i64>)
    ensures
        r == rfc2822_timestamp_of(text@),
{
    chrono::DateTime::parse_from_rfc2822(text).ok().map(|moment| moment.timestamp())
}

/// The time that a response states for its object: what its header of the
/// last modification says, if the header is there and is a date.
pub open spec fn stated_time(header: Option<Seq<char>>) -> Option<u64> {
    match header {
        Some(text) => match rfc2822_timestamp_of(text) {
            Some(t) => Some(as_unsigned(t)),
            None => None,
        },
        None => None,
    }
}

/// Reads the time of an object off the header of the last modification.
pub fn http_modified(header: Option<&str>) -> (r: Option<u64>)
    ensures
        r == stated_time(
            match header {
                Some(text) => Some(text@),
                None => None,
            },
        ),
{
    match header {
        Some(text) => match rfc2822_timestamp(text) {
            Some(t) => Some(to_unsigned(t)),
            None => None,
        },
        None => None,
    }
}

/// Whether a status stands for success.
pub open spec fn is_success(status: u16) -> bool {
    200 <= status <= 299
}

/// The time that counts for an object, or why there is none: the time that
/// the pipe is set to trust has to be there, and where the snapshot and the
/// response both give a time, the two have to be the same.
pub open spec fn modified_time(
    use_snapshot: bool,
    snapshot: Option<u64>,
    http: Option<u64>,
) -> Result<u64, Error> {
    let selected = if use_snapshot {
        snapshot
    } else {
        http
    };
    match (selected, snapshot, http) {
        (None, _, _) => Err(Error::NoModifiedTime),
        (Some(t), Some(s), Some(h)) => if s == h {
            Ok(t)
        } else {
            Err(Error::ModifiedMismatch { http: h, snapshot: s })
        },
        (Some(t), _, _) => Ok(t),
    }
}

/// Whether the length received is the length announced, where one was.
pub open spec fn length_agrees(content_length: Option<u64>, received: u64) -> bool {
    match content_length {
        Some(expected) => expected == received,
        None => true,
    }
}

/// Refuses a response whose status is not a success.
pub fn check_status(status: u16) -> (r: Result<(), Error>)
    ensures
        r is Ok <==> is_success(status),
        r matches Err(e) ==> (e matches Error::HTTPError(code) && code == status),
{
    if 200 <= status && status <= 299 {
        Ok(())
    } else {
        Err(Error::HTTPError(status))
    }
}

/// The running count of bytes after one more chunk, or none if it does not
/// fit.
pub fn count_chunk(received: u64, chunk: usize) -> (r: Option<u64>)
    ensures
        r is Some <==> received + chunk <= u64::MAX,
        r matches Some(total) ==> total == received + chunk,
{
    let chunk: u64 = chunk as u64;
    if chunk <= u64::MAX - received {
        Some(received + chunk)
    } else {
        None
    }
}

/// Refuses a body that is not as long as the response announced.
pub fn check_length(content_length: Option<u64>, received: u64) -> (r: Result<(), Error>)
    ensures
        r is Ok <==> length_agrees(content_length, received),
        r matches Err(e) ==> (e matches Error::LengthMismatch { expected, got } && Some(expected)
            == content_length && got == received),
{
    match content_length {
        Some(expected) => {
            if expected != received {
                return Err(Error::LengthMismatch { expected, got: received });
            }
            Ok(())
        },
        None => Ok(()),
    }
}

/// Settles the time of an object between the time of its snapshot item
/// and the time that the response stated.
pub fn settle_modified(use_snapshot: bool, snapshot: Option<u64>, http: Option<u64>) -> (r: Result<
    u64,
    Error,
>)
    ensures
        r == modified_time(use_snapshot, snapshot, http),
{
    let selected = if use_snapshot {
        snapshot
    } else {
        http
    };
    let time = match selected {
        Some(t) => t,
        None => {
            return Err(Error::NoModifiedTime);
        },
    };
    match (snapshot, http) {
        (Some(s), Some(h)) => {
            if s != h {
                return Err(Error::ModifiedMismatch { http: h, snapshot: s });
            }
        },
        _ => {},
    }
    Ok(time)
}

impl<Source> ByteStreamPipe<Source> {
    pub fn new(source: Source, buffer_path: String, use_snapshot_last_modified: bool) -> (pipe:
        Self)
        ensures
            pipe.source == source,
            pipe.buffer_path == buffer_path,
            pipe.use_snapshot_last_modified == use_snapshot_last_modified,
    {
        ByteStreamPipe { source, buffer_path, use_snapshot_last_modified }
    }

    /// The name of the scratch file for the URL whose hash is `url_hash`,
    /// asked for at the time `time`.
    pub fn buffer_file_name(&self, url_hash: &str, time: u64) -> (path: String)
        ensures
            path@ == buffer_file(self.buffer_path@, url_hash@, time as nat),
    {
        buffer_file_path(self.buffer_path.as_str(), url_hash, time)
    }

    /// The time that the object of an item gets, from the time of the item
    /// and the time that the response gave.
    pub fn effective_modified(&self, snapshot: Option<u64>, http: Option<u64>) -> (r: Result<
        u64,
        Error,
    >)
        ensures
            r == modified_time(self.use_snapshot_last_modified, snapshot, http),
    {
        settle_modified(self.use_snapshot_last_modified, snapshot, http)
    }

    /// Concludes a fetch once the body lies in the scratch file `path`: the
    /// length has to be the one announced, and the object needs a time.
    pub fn conclude<S: Metadata>(
        &self,
        snapshot: &S,
        path: String,
        content_length: Option<u64>,
        received: u64,
        http_modified: Option<u64>,
    ) -> (r: Result<ByteStream, Error>)
        ensures
            !length_agrees(content_length, received) ==> (r matches Err(e)
                && e matches Error::LengthMismatch { expected, got } && Some(expected)
                == content_length && got == received),
            length_agrees(content_length, received) ==> match modified_time(
                self.use_snapshot_last_modified,
                snapshot.last_modified_of(),
                http_modified,
            ) {
                Ok(t) => r matches Ok(object) && object.path == path && object.length == received
                    && object.modified_at == t && object.content_type is None,
                Err(fault) => r matches Err(e) && e == fault,
            },
    {
        match check_length(content_length, received) {
            Err(e) => {
                return Err(e);
            },
            Ok(_) => {},
        }
        match self.effective_modified(snapshot.last_modified(), http_modified) {
            Ok(modified_at) => Ok(ByteStream { path, length: received, modified_at, content_type: None }),
            Err(e) => Err(e),
        }
    }
}

/// How far a fetch has come.
#[derive(Debug, Copy, Clone, PartialEq, Eq, Structural)]
pub enum FetchPhase {
    /// The scratch file is there and the request is out.
    Requesting,
    /// The response came with a success; the body is being received.
    Receiving,
    /// The fetch is over: the object was delivered, or the scratch file
    /// was given up.
    Over,
}

/// One fetch of the byte-stream pipe: from the address of an object to the
/// object in its scratch file.
#[derive(Debug)]
pub struct Fetch {
    /// The scratch file of this fetch.
    pub scratch: String,
    pub use_snapshot_last_modified: bool,
    /// The time that the snapshot item gives.
    pub snapshot_modified: Option<u64>,
    pub phase: FetchPhase,
    /// The length that the response announced.
    pub content_length: Option<u64>,
    /// The time that the response stated.
    pub http_modified: Option<u64>,
    /// How many bytes of the body lie in the scratch file.
    pub received: u64,
}

/// What the driver of a fetch does next.
#[derive(Debug)]
pub enum FetchStep {
    /// Read the next chunk of the body into the scratch file.
    Receive,
    /// Rewind the scratch file and hand the object on. The object owns the
    /// scratch file from now on.
    Deliver(ByteStream),
    /// Remove the scratch file that is named, if one is, and fail.
    Abandon { remove: Option<String>, error: Error },
}

impl FetchStep {
    /// The step names `scratch` as the file of the object that it hands on
    /// or as the file to remove.
    pub open spec fn settles(self, scratch: Seq<char>) -> bool {
        match self {
            FetchStep::Receive => false,
            FetchStep::Deliver(object) => object.path@ == scratch,
            FetchStep::Abandon { remove, .. } => remove matches Some(path) && path@ == scratch,
        }
    }
}

impl FetchStep {
    /// The step ends a fetch that was over before: no file is named.
    pub open spec fn names_nothing(self) -> bool {
        self matches FetchStep::Abandon { remove, .. } && remove is None
    }
}

/// What every step of a fetch keeps to, whatever the event: the fetch stays
/// the same fetch; a step that goes on leaves it going; a step that ends it
/// names the scratch file, as the file of the object that it hands on or
/// as the file to remove; and once the fetch is over, no step names a file
/// again.
pub open spec fn is_step_of(before: Fetch, after: Fetch, step: FetchStep) -> bool {
    &&& after.same_fetch(&before)
    &&& if step is Receive {
        before.phase != FetchPhase::Over && after.phase != FetchPhase::Over
    } else {
        &&& after.phase == FetchPhase::Over
        &&& before.phase != FetchPhase::Over ==> step.settles(before.scratch@)
        &&& before.phase == FetchPhase::Over ==> step.names_nothing()
    }
}

/// The fetch before the step `i` of a run that began with `start`.
pub open spec fn fetch_before(start: Fetch, states: Seq<Fetch>, i: int) -> Fetch {
    if i <= 0 {
        start
    } else {
        states[i - 1]
    }
}

/// A fetch as its driver sees it: `states[i]` is the fetch after the step
/// `steps[i]`.
pub open spec fn is_fetch_run(start: Fetch, states: Seq<Fetch>, steps: Seq<FetchStep>) -> bool
    decreases steps.len(),
{
    &&& states.len() == steps.len()
    &&& steps.len() > 0 ==> {
        &&& is_fetch_run(start, states.drop_last(), steps.drop_last())
        &&& is_step_of(
            fetch_before(start, states, steps.len() - 1),
            states.last(),
            steps.last(),
        )
    }
}

/// The step `k` is the one that settles the scratch file: the steps before
/// it go on, and those after it name no file.
pub open spec fn settled_at(scratch: Seq<char>, steps: Seq<FetchStep>, k: int) -> bool {
    &&& 0 <= k < steps.len()
    &&& steps[k].settles(scratch)
    &&& forall|j: int| 0 <= j < k ==> (#[trigger] steps[j]) is Receive
    &&& forall|j: int| k < j < steps.len() ==> (#[trigger] steps[j]).names_nothing()
}

/// Every step of the run goes on.
pub open spec fn all_go_on(steps: Seq<FetchStep>) -> bool {
    forall|j: int| 0 <= j < steps.len() ==> (#[trigger] steps[j]) is Receive
}

/// Some step of the run settles the scratch file.
pub open spec fn settled(scratch: Seq<char>, steps: Seq<FetchStep>) -> bool {
    exists|k: int| settled_at(scratch, steps, k)
}

proof fn lemma_settled_goes_on(scratch: Seq<char>, steps: Seq<FetchStep>)
    requires
        steps.len() > 0,
        settled(scratch, steps.drop_last()),
        steps.last().names_nothing(),
    ensures
        settled(scratch, steps),
{
    let early = steps.drop_last();
    let k = choose|k: int| settled_at(scratch, early, k);
    assert(steps[k] == early[k]);
    assert forall|j: int| 0 <= j < k implies (#[trigger] steps[j]) is Receive by {
        assert(early[j] is Receive);
    }
    assert forall|j: int| k < j < steps.len() implies (#[trigger] steps[j]).names_nothing() by {
        if j < steps.len() - 1 {
            assert(early[j].names_nothing());
        }
    }
    assert(settled_at(scratch, steps, k));
}

proof fn lemma_settled_now(scratch: Seq<char>, steps: Seq<FetchStep>)
    requires
        steps.len() > 0,
        all_go_on(steps.drop_last()),
        steps.last().settles(scratch),
    ensures
        settled(scratch, steps),
{
    let early = steps.drop_last();
    let k = steps.len() - 1;
    assert forall|j: int| 0 <= j < k implies (#[trigger] steps[j]) is Receive by {
        assert(early[j] is Receive);
    }
    assert(settled_at(scratch, steps, k));
}

proof fn lemma_still_going(steps: Seq<FetchStep>)
    requires
        steps.len() > 0,
        all_go_on(steps.drop_last()),
        steps.last() is Receive,
    ensures
        all_go_on(steps),
{
    let early = steps.drop_last();
    assert forall|j: int| 0 <= j < steps.len() implies (#[trigger] steps[j]) is Receive by {
        if j < steps.len() - 1 {
            assert(early[j] is Receive);
        }
    }
}

/// Byte-stream cleanup: however a fetch goes, once it is over exactly one
/// of its steps has named its scratch file, to be handed on with the object
/// or to be removed, and no step names any other file. While it is not
/// over, no step has named a file, and `failed` ends it.
pub proof fn lemma_fetch_settles_once(start: Fetch, states: Seq<Fetch>, steps: Seq<FetchStep>)
    requires
        start.phase != FetchPhase::Over,
        is_fetch_run(start, states, steps),
    ensures
        fetch_before(start, states, states.len() as int).scratch == start.scratch,
        fetch_before(start, states, states.len() as int).phase == FetchPhase::Over ==> settled(
            start.scratch@,
            steps,
        ),
        fetch_before(start, states, states.len() as int).phase != FetchPhase::Over ==> all_go_on(
            steps,
        ),
    decreases steps.len(),
{
    if steps.len() > 0 {
        let n = steps.len() as int;
        let early_states = states.drop_last();
        let early = steps.drop_last();
        lemma_fetch_settles_once(start, early_states, early);
        let before = fetch_before(start, states, n - 1);
        assert(before == fetch_before(start, early_states, n - 1));
        let after = states.last();
        let step = steps.last();
        assert(is_step_of(before, after, step));
        assert(fetch_before(start, states, n) == after);
        if before.phase == FetchPhase::Over {
            lemma_settled_goes_on(start.scratch@, steps);
        } else if step is Receive {
            lemma_still_going(steps);
        } else {
            lemma_settled_now(start.scratch@, steps);
        }
    }
}

impl<Source> ByteStreamPipe<Source> {
    /// `fetch` is the fetch of the object of an item from `url`, begun at
    /// the time `time`: its scratch file is named by the hash of the URL and
    /// the time, and nothing has come yet.
    pub open spec fn begins<S: Metadata>(
        &self,
        snapshot: S,
        url: TransferURL,
        time: u64,
        fetch: Fetch,
    ) -> bool {
        &&& fetch.scratch@ == buffer_file(
            self.buffer_path@,
            hex_number(hash_of(url.0@) as nat),
            time as nat,
        )
        &&& fetch.use_snapshot_last_modified == self.use_snapshot_last_modified
        &&& fetch.snapshot_modified == snapshot.last_modified_of()
        &&& fetch.phase == FetchPhase::Requesting
        &&& fetch.content_length is None
        &&& fetch.http_modified is None
        &&& fetch.received == 0
    }

    /// Begins the fetch of the object of an item from `url` at the time
    /// `time`, in nanoseconds since the epoch. The driver creates the
    /// scratch file that the fetch names and sends the request.
    pub fn begin<S: Metadata>(&self, snapshot: &S, url: &TransferURL, time: u64) -> (fetch: Fetch)
        ensures
            self.begins(*snapshot, *url, time, fetch),
    {
        let hash = hash_string(url.0.as_str());
        Fetch {
            scratch: self.buffer_file_name(hash.as_str(), time),
            use_snapshot_last_modified: self.use_snapshot_last_modified,
            snapshot_modified: snapshot.last_modified(),
            phase: FetchPhase::Requesting,
            content_length: None,
            http_modified: None,
            received: 0,
        }
    }

    /// Takes up the object of an item where the wrapped source has resolved
    /// its address: a failure of the source is handed on and nothing is
    /// fetched, so that no scratch file is made; else the fetch begins, and
    /// the address to ask is handed back with it.
    pub fn get_object<S: Metadata>(
        &self,
        snapshot: &S,
        resolved: Result<TransferURL, Error>,
        time: u64,
    ) -> (r: Result<(TransferURL, Fetch), Error>)
        ensures
            match resolved {
                Err(fault) => r == Err::<(TransferURL, Fetch), Error>(fault),
                Ok(url) => r matches Ok((address, fetch)) && address == url && self.begins(
                    *snapshot,
                    url,
                    time,
                    fetch,
                ),
            },
    {
        match resolved {
            Err(fault) => Err(fault),
            Ok(url) => {
                let fetch = self.begin(snapshot, &url, time);
                Ok((url, fetch))
            },
        }
    }
}

impl Fetch {
    /// Nothing but the phase and what the response said has changed.
    pub open spec fn same_fetch(&self, other: &Self) -> bool {
        &&& self.scratch == other.scratch
        &&& self.use_snapshot_last_modified == other.use_snapshot_last_modified
        &&& self.snapshot_modified == other.snapshot_modified
    }

    /// Ends the fetch with a failure: the scratch file is given up, unless
    /// the fetch was over before.
    fn give_up(&mut self, error: Error) -> (step: FetchStep)
        ensures
            final(self).same_fetch(old(self)),
            final(self).phase == FetchPhase::Over,
            step matches FetchStep::Abandon { remove, error: e } && e == error && (match remove {
                Some(path) => old(self).phase != FetchPhase::Over && path@ == old(self).scratch@,
                None => old(self).phase == FetchPhase::Over,
            }),
    {
        let remove = match self.phase {
            FetchPhase::Over => None,
            _ => Some(self.scratch.clone()),
        };
        self.phase = FetchPhase::Over;
        FetchStep::Abandon { remove, error }
    }

    /// Takes the head of the response: a status outside 200..=299 ends the
    /// fetch, and else the body is received.
    pub fn responded(
        &mut self,
        status: u16,
        content_length: Option<u64>,
        last_modified: Option<&str>,
    ) -> (step: FetchStep)
        ensures
            final(self).same_fetch(old(self)),
            is_step_of(*old(self), *final(self), step),
            old(self).phase == FetchPhase::Requesting && is_success(status) ==> step is Receive
                && final(self).phase == FetchPhase::Receiving && final(self).content_length
                == content_length && final(self).received == 0 && final(self).http_modified
                == stated_time(
                match last_modified {
                    Some(text) => Some(text@),
                    None => None,
                },
            ),
            old(self).phase == FetchPhase::Requesting && !is_success(status) ==> (
            step matches FetchStep::Abandon { error, .. } && error == Error::HTTPError(status)),
            old(self).phase != FetchPhase::Requesting ==> (
            step matches FetchStep::Abandon { error, .. } && error is PipeError),
            !(step is Receive) ==> final(self).phase == FetchPhase::Over && (old(self).phase
                != FetchPhase::Over ==> step.settles(old(self).scratch@)),
    {
        match self.phase {
            FetchPhase::Requesting => {},
            _ => {
                return self.give_up(Error::PipeError(String::from_str("no response was due")));
            },
        }
        match check_status(status) {
            Err(e) => {
                return self.give_up(e);
            },
            Ok(_) => {},
        }
        self.phase = FetchPhase::Receiving;
        self.content_length = content_length;
        self.http_modified = http_modified(last_modified);
        self.received = 0;
        FetchStep::Receive
    }

    /// Takes note of a chunk of the body that was written to the scratch
    /// file.
    pub fn chunk(&mut self, length: usize) -> (step: FetchStep)
        ensures
            final(self).same_fetch(old(self)),
            is_step_of(*old(self), *final(self), step),
            old(self).phase == FetchPhase::Receiving && old(self).received + length <= u64::MAX
                ==> step is Receive && final(self).phase == FetchPhase::Receiving
                && final(self).received == old(self).received + length
                && final(self).content_length == old(self).content_length
                && final(self).http_modified == old(self).http_modified,
            old(self).phase == FetchPhase::Receiving && old(self).received + length > u64::MAX
                ==> (step matches FetchStep::Abandon { error, .. } && error is IoError),
            old(self).phase != FetchPhase::Receiving ==> (
            step matches FetchStep::Abandon { error, .. } && error is PipeError),
            !(step is Receive) ==> final(self).phase == FetchPhase::Over && (old(self).phase
                != FetchPhase::Over ==> step.settles(old(self).scratch@)),
    {
        match self.phase {
            FetchPhase::Receiving => {},
            _ => {
                return self.give_up(Error::PipeError(String::from_str("no body was due")));
            },
        }
        match count_chunk(self.received, length) {
            Some(total) => {
                self.received = total;
                FetchStep::Receive
            },
            None => self.give_up(Error::IoError(String::from_str("the body is too long to count"))),
        }
    }

    /// Concludes the fetch at the end of the body: the length has to be the
    /// one announced, and the object needs a time.
    pub fn finished(&mut self) -> (step: FetchStep)
        ensures
            final(self).same_fetch(old(self)),
            is_step_of(*old(self), *final(self), step),
            final(self).phase == FetchPhase::Over,
            old(self).phase != FetchPhase::Over ==> step.settles(old(self).scratch@),
            old(self).phase == FetchPhase::Receiving ==> {
                if !length_agrees(old(self).content_length, old(self).received) {
                    step matches FetchStep::Abandon { error, .. }
                        && error matches Error::LengthMismatch { expected, got } && Some(expected)
                        == old(self).content_length && got == old(self).received
                } else {
                    match modified_time(
                        old(self).use_snapshot_last_modified,
                        old(self).snapshot_modified,
                        old(self).http_modified,
                    ) {
                        Ok(t) => step matches FetchStep::Deliver(object)
                            && object.length == old(self).received
                            && object.modified_at == t
                            && object.content_type is None,
                        Err(fault) => step matches FetchStep::Abandon { error, .. } && error
                            == fault,
                    }
                }
            },
            old(self).phase != FetchPhase::Receiving ==> (
            step matches FetchStep::Abandon { error, .. } && error is PipeError),
    {
        match self.phase {
            FetchPhase::Receiving => {},
            _ => {
                return self.give_up(Error::PipeError(String::from_str("no end was due")));
            },
        }
        match check_length(self.content_length, self.received) {
            Err(e) => {
                return self.give_up(e);
            },
            Ok(_) => {},
        }
        let time = match settle_modified(
            self.use_snapshot_last_modified,
            self.snapshot_modified,
            self.http_modified,
        ) {
            Ok(time) => time,
            Err(e) => {
                return self.give_up(e);
            },
        };
        self.phase = FetchPhase::Over;
        FetchStep::Deliver(
            ByteStream {
                path: self.scratch.clone(),
                length: self.received,
                modified_at: time,
                content_type: None,
            },
        )
    }

    /// Ends the fetch because the transport or the file system failed, or
    /// because the fetch was cancelled.
    pub fn failed(&mut self, error: Error) -> (step: FetchStep)
        ensures
            final(self).same_fetch(old(self)),
            is_step_of(*old(self), *final(self), step),
            final(self).phase == FetchPhase::Over,
            step matches FetchStep::Abandon { error: e, .. } && e == error,
            old(self).phase != FetchPhase::Over ==> step.settles(old(self).scratch@),
    {
        self.give_up(error)
    }
}

} // verus!
