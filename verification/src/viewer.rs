//! The staging store of an image viewer: which file is the original, which scratch file
//! holds a pending edit, and which of the two is on display. Every operation that touches
//! a file is decided here and carried out by the caller, who reports back how it went.

use vstd::prelude::*;
use crate::job::{Job, JobModel, Transform, TransformModel};
use crate::tempfiles::{
    is_scratch_of, lemma_scratch_is_not_original, lemma_sweep_covers_stems,
    lemma_sweep_covers_transforms, lemma_sweep_spares_original, stem_end, stem_name, sweep_names,
    sweep_paths, temp_name, TransformKind,
};
use crate::threshold::ThresholdSpec;

verus! {

/// A notification for the observer of a viewer: re-read the getter of that name.
#[derive(Clone, Copy, Debug, PartialEq, Eq, Structural)]
pub enum Signal {
    ImagePathChanged,
    DisplayPathChanged,
    HasPendingChanged,
}

/// Why a transform was not started.
#[derive(Clone, Copy, Debug, PartialEq, Eq, Structural)]
pub enum InputError {
    /// The payload of a threshold mapping could not be read.
    MalformedPayload,
    /// A threshold mapping came without stops.
    NoStops,
    /// No original image is set.
    NoOriginal,
}

/// A file copy for the caller to carry out.
pub struct CopyRequest {
    pub from: String,
    pub to: String,
}

/// What the caller does after a step has been recorded: delete a file, as far as that
/// succeeds, and raise notifications in the order given.
pub struct Effects {
    pub remove: Option<String>,
    pub signals: Vec<Signal>,
}

/// The characters of an optional path.
pub open spec fn path_view(path: Option<String>) -> Option<Seq<char>> {
    match path {
        Some(p) => Some(p@),
        None => None,
    }
}

/// The mathematical content of a viewer.
pub struct ViewerState {
    /// The original image; empty while none is set.
    pub image_path: Seq<char>,
    /// The scratch file of the pending edit, if there is one.
    pub pending: Option<Seq<char>>,
    /// The file under watch, if there is one.
    pub watched: Option<Seq<char>>,
}

impl ViewerState {
    /// The state of a new viewer.
    pub open spec fn initial() -> ViewerState {
        ViewerState { image_path: Seq::empty(), pending: None, watched: None }
    }

    /// What holds of every viewer: a pending edit belongs to the original that is set, as
    /// the scratch file of one of its transforms.
    pub open spec fn valid(self) -> bool {
        self.pending matches Some(p) ==> self.image_path.len() > 0 && is_scratch_of(
            self.image_path,
            p,
        )
    }

    /// The path on display: the pending scratch file if there is one, else the original.
    pub open spec fn display_path(self) -> Seq<char> {
        match self.pending {
            Some(p) => p,
            None => self.image_path,
        }
    }

    /// Whether an edit is pending.
    pub open spec fn has_pending(self) -> bool {
        self.pending is Some
    }

    /// After a new original was set: nothing is pending.
    pub open spec fn with_original(self, path: Seq<char>) -> ViewerState {
        ViewerState { image_path: path, pending: None, watched: self.watched }
    }

    /// After a transform wrote `target`: that file is pending.
    pub open spec fn staged(self, target: Seq<char>) -> ViewerState {
        ViewerState { image_path: self.image_path, pending: Some(target), watched: self.watched }
    }

    /// After the pending edit was committed or dropped: nothing is pending.
    pub open spec fn committed(self) -> ViewerState {
        ViewerState { image_path: self.image_path, pending: None, watched: self.watched }
    }

    /// After a watch of `path` was started.
    pub open spec fn watching(self, path: Seq<char>) -> ViewerState {
        ViewerState { image_path: self.image_path, pending: self.pending, watched: Some(path) }
    }

    /// The scratch file that staging `target` leaves behind: the one that was pending,
    /// unless `target` overwrote it.
    pub open spec fn stale(self, target: Seq<char>) -> Option<Seq<char>> {
        match self.pending {
            Some(p) => if p == target {
                None
            } else {
                Some(p)
            },
            None => None,
        }
    }

    /// The files that a cleanup deletes: the names that a sweep for the original looks for.
    /// In a valid state the pending scratch file is one of them.
    pub open spec fn removal_list(self) -> Seq<Seq<char>> {
        sweep_names(self.image_path)
    }

    /// Whether a job that reports `written` is taken up: its target was written, and it
    /// read the original that is set now.
    pub open spec fn accepts(self, job: JobModel, written: bool) -> bool {
        written && job.source == self.image_path
    }
}

/// The notifications of a staged transform.
pub open spec fn staged_signals() -> Seq<Signal> {
    seq![Signal::DisplayPathChanged, Signal::HasPendingChanged]
}

/// The notifications of a commit.
pub open spec fn commit_signals() -> Seq<Signal> {
    seq![Signal::ImagePathChanged, Signal::DisplayPathChanged, Signal::HasPendingChanged]
}

/// The notifications of a refresh: none when the copy it asked for failed; else that the
/// display changed, if an edit is pending, and that the original changed.
pub open spec fn refresh_signals(s: ViewerState, copied: bool) -> Seq<Signal> {
    if !s.has_pending() {
        seq![Signal::ImagePathChanged]
    } else if copied {
        seq![Signal::DisplayPathChanged, Signal::ImagePathChanged]
    } else {
        Seq::empty()
    }
}

/// Staging a transform and committing it leaves nothing pending and the original on
/// display, whatever was pending before.
pub proof fn lemma_commit_round_trip(s: ViewerState, target: Seq<char>)
    ensures
        s.staged(target).has_pending(),
        s.staged(target).display_path() == target,
        !s.staged(target).committed().has_pending(),
        s.staged(target).committed().display_path() == s.image_path,
        s.staged(target).committed().image_path == s.image_path,
{
}

/// An edit is pending exactly when the display differs from the original, and what is
/// pending is never the original itself.
pub proof fn lemma_pending_is_on_display(s: ViewerState)
    requires
        s.valid(),
    ensures
        s.has_pending() <==> s.display_path() != s.image_path,
        s.pending != Some(s.image_path),
{
    if s.pending is Some {
        lemma_scratch_is_not_original(s.image_path, s.pending.unwrap());
    }
}

/// Staging a job that is taken up keeps the viewer valid, and the scratch file that it
/// leaves behind is not the original.
pub proof fn lemma_staging_keeps_valid(s: ViewerState, job: JobModel)
    requires
        s.valid(),
        job.source == s.image_path,
        job.source.len() > 0,
        job.target == temp_name(job.source, job.transform.kind()),
    ensures
        s.staged(job.target).valid(),
        s.stale(job.target) != Some(s.image_path),
{
    lemma_pending_is_on_display(s);
}

/// A cleanup deletes the scratch file of every transform of the original, whichever of
/// them is pending, and the pending one with them; it deletes the names by directory and
/// stem where the stem is not the whole path; and it never deletes the original.
pub proof fn lemma_cleanup_sweeps_all(s: ViewerState, kind: TransformKind)
    requires
        s.valid(),
        s.image_path.len() > 0,
    ensures
        s.removal_list().contains(temp_name(s.image_path, kind)),
        s.pending matches Some(p) ==> s.removal_list().contains(p),
        stem_end(s.image_path) matches Some(c) ==> c < s.image_path.len()
            ==> s.removal_list().contains(stem_name(s.image_path, kind)),
        !s.removal_list().contains(s.image_path),
{
    lemma_sweep_covers_transforms(s.image_path, kind);
    lemma_sweep_covers_transforms(s.image_path, TransformKind::Gray);
    lemma_sweep_covers_transforms(s.image_path, TransformKind::Threshold);
    lemma_sweep_covers_transforms(s.image_path, TransformKind::Cleanup);
    if stem_end(s.image_path) is Some && stem_end(s.image_path).unwrap() < s.image_path.len() {
        lemma_sweep_covers_stems(s.image_path, kind);
    }
    lemma_sweep_spares_original(s.image_path);
}

/// The staging store of one viewer. What is pending is always a scratch file of the
/// original that is set.
pub struct ImageViewer {
    image_path: String,
    pending_path: Option<String>,
    watched_path: Option<String>,
}

impl View for ImageViewer {
    type V = ViewerState;

    closed spec fn view(&self) -> ViewerState {
        ViewerState {
            image_path: self.image_path@,
            pending: path_view(self.pending_path),
            watched: path_view(self.watched_path),
        }
    }
}

impl ImageViewer {
    #[verifier::type_invariant]
    spec fn holds(self) -> bool {
        self@.valid()
    }

    /// A viewer without an original, a pending edit or a watch.
    pub fn new() -> (viewer: ImageViewer)
        ensures
            viewer@ == ViewerState::initial(),
            viewer@.valid(),
    {
        ImageViewer { image_path: String::new(), pending_path: None, watched_path: None }
    }

    /// The path of the original image.
    pub fn image_path(&self) -> (path: &str)
        ensures
            path@ == self@.image_path,
            self@.valid(),
    {
        proof {
            use_type_invariant(self);
        }
        self.image_path.as_str()
    }

    /// The path to display: the pending scratch file if there is one, else the original.
    pub fn display_path(&self) -> (path: &str)
        ensures
            path@ == self@.display_path(),
            self@.valid(),
    {
        proof {
            use_type_invariant(self);
        }
        match &self.pending_path {
            Some(p) => p.as_str(),
            None => self.image_path.as_str(),
        }
    }

    /// Whether an edit is pending.
    pub fn has_pending(&self) -> (pending: bool)
        ensures
            pending == self@.has_pending(),
            self@.valid(),
    {
        proof {
            use_type_invariant(self);
        }
        self.pending_path.is_some()
    }

    /// The file under watch, if there is one.
    pub fn watched_path(&self) -> (path: Option<String>)
        ensures
            path_view(path) == self@.watched,
    {
        match &self.watched_path {
            Some(p) => Some(p.clone()),
            None => None,
        }
    }

    /// Sets the original image. Whatever was pending is no longer tracked; its file is
    /// not deleted.
    pub fn set_image_path(&mut self, path: String) -> (signals: Vec<Signal>)
        ensures
            final(self)@ == old(self)@.with_original(path@),
            final(self)@.valid(),
            signals@ == seq![Signal::ImagePathChanged],
    {
        self.pending_path = None;
        self.image_path = path;
        let mut signals: Vec<Signal> = Vec::new();
        signals.push(Signal::ImagePathChanged);
        signals
    }

    /// Starts a transform of the original, which needs an original to be set.
    fn start(&self, transform: Transform) -> (job: Result<Job, InputError>)
        requires
            transform@.runnable(),
        ensures
            job is Ok <==> self@.image_path.len() > 0,
            job matches Err(e) ==> e == InputError::NoOriginal,
            job matches Ok(j) ==> j@ == (JobModel {
                transform: transform@,
                source: self@.image_path,
                target: temp_name(self@.image_path, transform@.kind()),
            }),
    {
        if self.image_path.as_str().is_empty() {
            Err(InputError::NoOriginal)
        } else {
            Ok(Job::new(transform, self.image_path.as_str()))
        }
    }

    /// Starts a gray preview: the job to run, or the reason why there is none. The state
    /// changes only when the finished job is reported to `finish_transform`.
    pub fn gray_preview(&self) -> (job: Result<Job, InputError>)
        ensures
            job is Ok <==> self@.image_path.len() > 0,
            job matches Err(e) ==> e == InputError::NoOriginal,
            job matches Ok(j) ==> j@ == (JobModel {
                transform: TransformModel::Gray,
                source: self@.image_path,
                target: temp_name(self@.image_path, TransformKind::Gray),
            }),
    {
        self.start(Transform::Gray)
    }

    /// Starts a threshold mapping with the payload that the caller decoded, `None` standing
    /// for a payload that could not be decoded. The payload is judged first, then its
    /// stops, then the original.
    pub fn apply_threshold_mapping(&self, payload: Option<ThresholdSpec>) -> (job: Result<
        Job,
        InputError,
    >)
        ensures
            job is Ok <==> (payload matches Some(spec) && spec.stops.len() > 0
                && self@.image_path.len() > 0),
            job matches Err(e) ==> e == (match payload {
                None => InputError::MalformedPayload,
                Some(spec) => if spec.stops.len() == 0 {
                    InputError::NoStops
                } else {
                    InputError::NoOriginal
                },
            }),
            job matches Ok(j) ==> j@ == (JobModel {
                transform: TransformModel::Threshold {
                    stops: payload.unwrap().stops@,
                    average_mode: payload.unwrap().average_mode,
                },
                source: self@.image_path,
                target: temp_name(self@.image_path, TransformKind::Threshold),
            }),
    {
        match payload {
            None => Err(InputError::MalformedPayload),
            Some(spec) => {
                if spec.stops.len() == 0 {
                    Err(InputError::NoStops)
                } else {
                    self.start(Transform::Threshold(spec))
                }
            },
        }
    }

    /// Starts a cleanup of scattered pixels.
    pub fn cleanup_scattered_pixels(&self) -> (job: Result<Job, InputError>)
        ensures
            job is Ok <==> self@.image_path.len() > 0,
            job matches Err(e) ==> e == InputError::NoOriginal,
            job matches Ok(j) ==> j@ == (JobModel {
                transform: TransformModel::Cleanup,
                source: self@.image_path,
                target: temp_name(self@.image_path, TransformKind::Cleanup),
            }),
    {
        self.start(Transform::Cleanup)
    }

    /// Records how a job ended. A job is taken up if its target was written and it read
    /// the original that is set now. Then its target becomes the pending edit and the
    /// display, and a scratch file that was pending before and was not overwritten is handed
    /// out for deletion. A job that failed, or that read another original, changes nothing
    /// and raises nothing.
    pub fn finish_transform(&mut self, job: &Job, written: bool) -> (effects: Effects)
        ensures
            final(self)@.valid(),
            old(self)@.accepts(job@, written) ==> final(self)@ == old(self)@.staged(job@.target),
            old(self)@.accepts(job@, written) ==> path_view(effects.remove) == old(self)@.stale(
                job@.target,
            ),
            old(self)@.accepts(job@, written) ==> effects.signals@ == staged_signals(),
            !old(self)@.accepts(job@, written) ==> final(self)@ == old(self)@,
            !old(self)@.accepts(job@, written) ==> effects.remove is None,
            !old(self)@.accepts(job@, written) ==> effects.signals@ == Seq::<Signal>::empty(),
    {
        proof {
            use_type_invariant(&*self);
        }
        let mut signals: Vec<Signal> = Vec::new();
        if !written || !job.reads(&self.image_path) {
            return Effects { remove: None, signals };
        }
        let target = String::from_str(job.target());
        let remove = match &self.pending_path {
            Some(p) => if *p == target {
                None
            } else {
                Some(p.clone())
            },
            None => None,
        };
        self.pending_path = Some(target);
        signals.push(Signal::DisplayPathChanged);
        signals.push(Signal::HasPendingChanged);
        Effects { remove, signals }
    }

    /// Starts a commit: the copy of the pending scratch file over the original, or `None`
    /// when nothing is pending.
    pub fn save_processed(&self) -> (copy: Option<CopyRequest>)
        ensures
            copy is Some <==> self@.has_pending(),
            copy matches Some(c) ==> Some(c.from@) == self@.pending && c.to@ == self@.image_path,
            self@.valid(),
    {
        proof {
            use_type_invariant(self);
        }
        match &self.pending_path {
            Some(p) => Some(CopyRequest { from: p.clone(), to: self.image_path.clone() }),
            None => None,
        }
    }

    /// Records how the copy of a commit ended. After a copy that succeeded nothing is
    /// pending, the original is on display, and the scratch file is handed out for
    /// deletion. After a copy that failed, or with nothing pending, nothing changes.
    pub fn finish_save(&mut self, copied: bool) -> (effects: Effects)
        ensures
            final(self)@.valid(),
            copied && old(self)@.has_pending() ==> final(self)@ == old(self)@.committed(),
            copied && old(self)@.has_pending() ==> path_view(effects.remove) == old(
                self,
            )@.pending,
            copied && old(self)@.has_pending() ==> effects.signals@ == commit_signals(),
            !(copied && old(self)@.has_pending()) ==> final(self)@ == old(self)@,
            !(copied && old(self)@.has_pending()) ==> effects.remove is None,
            !(copied && old(self)@.has_pending()) ==> effects.signals@ == Seq::<Signal>::empty(),
    {
        proof {
            use_type_invariant(&*self);
        }
        let mut signals: Vec<Signal> = Vec::new();
        if !copied || self.pending_path.is_none() {
            return Effects { remove: None, signals };
        }
        let remove = match &self.pending_path {
            Some(p) => Some(p.clone()),
            None => None,
        };
        self.pending_path = None;
        signals.push(Signal::ImagePathChanged);
        signals.push(Signal::DisplayPathChanged);
        signals.push(Signal::HasPendingChanged);
        Effects { remove, signals }
    }

    /// Starts a refresh: the copy of the original over the pending scratch file, or `None`
    /// when nothing is pending. The transform is not run again.
    pub fn refresh_display(&self) -> (copy: Option<CopyRequest>)
        ensures
            copy is Some <==> self@.has_pending(),
            copy matches Some(c) ==> c.from@ == self@.image_path && Some(c.to@) == self@.pending,
            self@.valid(),
    {
        proof {
            use_type_invariant(self);
        }
        match &self.pending_path {
            Some(p) => Some(CopyRequest { from: self.image_path.clone(), to: p.clone() }),
            None => None,
        }
    }

    /// The notifications that end a refresh, given how the copy it asked for ended. The
    /// state stays as it is.
    pub fn finish_refresh(&self, copied: bool) -> (signals: Vec<Signal>)
        ensures
            signals@ == refresh_signals(self@, copied),
    {
        let mut signals: Vec<Signal> = Vec::new();
        if self.pending_path.is_none() {
            signals.push(Signal::ImagePathChanged);
        } else if copied {
            signals.push(Signal::DisplayPathChanged);
            signals.push(Signal::ImagePathChanged);
        }
        signals
    }

    /// The files for a cleanup to delete, as far as they exist: the scratch files that the
    /// three transforms of the original write, the pending one among them, then the three
    /// names by directory and stem of the original. The state stays as it is: what was
    /// pending is still pending.
    pub fn cleanup_temp_files(&self) -> (files: Vec<String>)
        ensures
            files.deep_view() == self@.removal_list(),
            self@.valid(),
    {
        proof {
            use_type_invariant(self);
        }
        sweep_paths(self.image_path.as_str())
    }

    /// Records the attempt to start a watch of `path`. A watch that started replaces the
    /// one before it; after an attempt that failed the viewer watches what it watched
    /// before. The report says whether the watch started.
    pub fn start_watcher(&mut self, path: String, started: bool) -> (ok: bool)
        ensures
            ok == started,
            final(self)@.valid(),
            started ==> final(self)@ == old(self)@.watching(path@),
            !started ==> final(self)@ == old(self)@,
    {
        proof {
            use_type_invariant(&*self);
        }
        if started {
            self.watched_path = Some(path);
        }
        started
    }
}

} // verus!
