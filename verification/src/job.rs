//! A transform that is ready to run: what to do, which file to read and which to write.

use vstd::prelude::*;
use crate::cleanup::{cleanup_grid, cleanup_raster};
use crate::gray::{gray_grid, gray_raster};
use crate::raster::{Grid, Raster};
use crate::tempfiles::{temp_name, temp_path, TransformKind};
use crate::threshold::{threshold_grid, threshold_raster, ThresholdSpec};

verus! {

/// A pixel transform with what it needs to run.
pub enum Transform {
    Gray,
    Threshold(ThresholdSpec),
    Cleanup,
}

/// The mathematical content of a transform.
pub enum TransformModel {
    Gray,
    Threshold { stops: Seq<u8>, average_mode: bool },
    Cleanup,
}

impl TransformModel {
    /// The kind of the transform, which names its scratch file.
    pub open spec fn kind(self) -> TransformKind {
        match self {
            TransformModel::Gray => TransformKind::Gray,
            TransformModel::Threshold { .. } => TransformKind::Threshold,
            TransformModel::Cleanup => TransformKind::Cleanup,
        }
    }

    /// What the transform makes of a grid.
    pub open spec fn apply(self, g: Grid) -> Grid {
        match self {
            TransformModel::Gray => gray_grid(g),
            TransformModel::Threshold { stops, average_mode } => threshold_grid(
                g,
                stops,
                average_mode,
            ),
            TransformModel::Cleanup => cleanup_grid(g),
        }
    }

    /// A threshold mapping can run only with one stop at least.
    pub open spec fn runnable(self) -> bool {
        self matches TransformModel::Threshold { stops, .. } ==> stops.len() > 0
    }
}

impl View for Transform {
    type V = TransformModel;

    open spec fn view(&self) -> TransformModel {
        match self {
            Transform::Gray => TransformModel::Gray,
            Transform::Threshold(spec) => TransformModel::Threshold {
                stops: spec.stops@,
                average_mode: spec.average_mode,
            },
            Transform::Cleanup => TransformModel::Cleanup,
        }
    }
}

/// The mathematical content of a job.
pub struct JobModel {
    pub transform: TransformModel,
    pub source: Seq<char>,
    pub target: Seq<char>,
}

/// One run of a transform: decode the file at `source`, render, and encode the result as
/// PNG to the file at `target`. The source is not empty, the target is the scratch file
/// that the source and the kind of the transform name, and a threshold mapping has one
/// stop at least.
pub struct Job {
    transform: Transform,
    source: String,
    target: String,
}

impl View for Job {
    type V = JobModel;

    closed spec fn view(&self) -> JobModel {
        JobModel { transform: self.transform@, source: self.source@, target: self.target@ }
    }
}

impl Job {
    #[verifier::type_invariant]
    spec fn valid(self) -> bool {
        &&& self.transform@.runnable()
        &&& self.source@.len() > 0
        &&& self.target@ == temp_name(self.source@, self.transform@.kind())
    }

    /// The job that runs `transform` on the file at `source`.
    pub(crate) fn new(transform: Transform, source: &str) -> (job: Job)
        requires
            transform@.runnable(),
            source@.len() > 0,
        ensures
            job@.transform == transform@,
            job@.source == source@,
            job@.target == temp_name(source@, transform@.kind()),
    {
        let kind = match &transform {
            Transform::Gray => TransformKind::Gray,
            Transform::Threshold(_) => TransformKind::Threshold,
            Transform::Cleanup => TransformKind::Cleanup,
        };
        let target = temp_path(source, kind);
        Job { transform, source: String::from_str(source), target }
    }

    /// The kind of the transform.
    pub fn kind(&self) -> (kind: TransformKind)
        ensures
            kind == self@.transform.kind(),
            self@.transform.runnable(),
    {
        proof {
            use_type_invariant(self);
        }
        match &self.transform {
            Transform::Gray => TransformKind::Gray,
            Transform::Threshold(_) => TransformKind::Threshold,
            Transform::Cleanup => TransformKind::Cleanup,
        }
    }

    /// The file to decode, which is never the empty path.
    pub fn source(&self) -> (path: &str)
        ensures
            path@ == self@.source,
            path@.len() > 0,
    {
        proof {
            use_type_invariant(self);
        }
        self.source.as_str()
    }

    /// Whether the job reads the file at `path`.
    pub fn reads(&self, path: &String) -> (same: bool)
        ensures
            same == (self@.source == path@),
    {
        self.source == *path
    }

    /// The file to encode the result to: the scratch file of the source.
    pub fn target(&self) -> (path: &str)
        ensures
            path@ == self@.target,
            path@ == temp_name(self@.source, self@.transform.kind()),
            self@.source.len() > 0,
    {
        proof {
            use_type_invariant(self);
        }
        self.target.as_str()
    }

    /// Runs the transform on the decoded source.
    pub fn render(&self, source: Raster) -> (out: Raster)
        ensures
            out@ == self@.transform.apply(source@),
    {
        proof {
            use_type_invariant(self);
        }
        match &self.transform {
            Transform::Gray => {
                let mut img = source;
                gray_raster(&mut img);
                img
            },
            Transform::Threshold(spec) => threshold_raster(&source, &spec.stops, spec.average_mode),
            Transform::Cleanup => cleanup_raster(&source),
        }
    }
}

} // verus!
