//! Decisions of the progressive develop preview.
//!
//! Opening a photo starts a background job that may deliver a quick
//! placeholder (cached thumbnail, embedded JPEG) and then the final
//! preview, or an error. Every job carries the generation it was
//! started in; a result from an older generation, or for another photo,
//! is dropped. The host draws textures and measures the crossfade; this
//! type decides what each delivery does.

use vstd::prelude::*;
use crate::import::thumbnail::Thumbnail;

verus! {

/// Qualities of a delivered image, as classified by its source.
#[derive(Debug, Clone, Copy, PartialEq, Eq, Structural)]
pub struct ImageKind {
    /// The image is a final-quality preview.
    pub is_final: bool,
    /// The image is a quick placeholder (cached thumbnail or embedded JPEG).
    pub is_placeholder: bool,
}

/// What a background job delivered.
#[derive(Debug, Clone, PartialEq, Eq)]
pub enum Delivery {
    /// A quick first image.
    Placeholder(ImageKind),
    /// The final image.
    Ready(ImageKind),
    /// The job failed with this message.
    Failed(String),
}

/// What the host does with a delivery.
#[derive(Debug, Clone, Copy, PartialEq, Eq, Structural)]
pub enum PreviewAction {
    /// Drop the delivered image.
    Ignore,
    /// Show the delivered image; with `crossfade`, keep the current
    /// texture underneath and fade the new one in.
    Show { crossfade: bool },
}

/// The status shown while a job runs.
pub open spec fn loading_text() -> Seq<char> {
    "Loading…"@
}

/// The status shown for a file that is not a raw file.
pub open spec fn raw_only_text() -> Seq<char> {
    "Develop preview supports RAW files only"@
}

/// A thumbnail read from the library's thumbnail cache, usable as the
/// first placeholder only when it has pixels and a positive size.
pub fn cached_placeholder(cached: Option<Thumbnail>) -> (r: Option<Thumbnail>)
    ensures
        r == match cached {
            Some(t) => if t.rgba@.len() > 0 && t.width > 0 && t.height > 0 { Some(t) } else { None },
            None => None,
        },
{
    match cached {
        Some(t) => {
            if t.rgba.len() == 0 || t.width == 0 || t.height == 0 {
                None
            } else {
                Some(t)
            }
        },
        None => None,
    }
}

/// State of the develop preview.
pub struct PreviewSession {
    /// The photo being shown or loaded.
    pub photo_id: Option<i64>,
    generation: u64,
    image: Option<ImageKind>,
    status: Option<String>,
    loading: bool,
    settled: bool,
    fading: bool,
}

impl PreviewSession {
    /// The photo being shown or loaded.
    pub closed spec fn spec_photo(&self) -> Option<i64> {
        self.photo_id
    }

    pub closed spec fn spec_generation(&self) -> u64 {
        self.generation
    }

    /// The kind of image shown, if any.
    pub closed spec fn spec_image(&self) -> Option<ImageKind> {
        self.image
    }

    /// The status line, if any.
    pub closed spec fn spec_status(&self) -> Option<Seq<char>> {
        match self.status {
            Some(s) => Some(s@),
            None => None,
        }
    }

    pub closed spec fn spec_loading(&self) -> bool {
        self.loading
    }

    pub closed spec fn spec_settled(&self) -> bool {
        self.settled
    }

    /// A crossfade from the previous image is in progress.
    pub closed spec fn spec_fading(&self) -> bool {
        self.fading
    }

    /// Photo `id` is loaded, loading, or finished with an error.
    pub closed spec fn active_for(&self, id: i64) -> bool {
        self.photo_id == Some(id) && (self.loading || self.settled || self.image is Some)
    }

    /// Nothing shown, nothing loading, generation 0.
    pub fn new() -> (s: Self)
        ensures
            s.spec_photo() is None,
            s.spec_generation() == 0,
            s.spec_image() is None,
            s.spec_status() is None,
            !s.spec_loading(),
            !s.spec_settled(),
            !s.spec_fading(),
    {
        PreviewSession {
            photo_id: None,
            generation: 0,
            image: None,
            status: None,
            loading: false,
            settled: false,
            fading: false,
        }
    }

    /// Whether photo `id` is loaded, loading, or finished with an error.
    pub fn is_active_for(&self, id: i64) -> (r: bool)
        ensures
            r == self.active_for(id),
    {
        self.photo_id == Some(id) && (self.loading || self.settled || self.image.is_some())
    }

    /// Start loading `photo_id` (whose file is a raw file when `is_raw`).
    /// Nothing changes when the photo is already active. Otherwise a new
    /// generation starts with nothing shown; a raw file starts loading,
    /// and the generation of the job to start is returned; any other
    /// file settles at once with a message.
    pub fn open(&mut self, photo_id: i64, is_raw: bool) -> (job: Option<u64>)
        ensures
            old(self).active_for(photo_id) ==> job is None && *final(self) == *old(self),
            !old(self).active_for(photo_id) ==> {
                &&& final(self).spec_photo() == Some(photo_id)
                &&& final(self).spec_generation() == if old(self).spec_generation() == u64::MAX {
                    0
                } else {
                    (old(self).spec_generation() + 1) as u64
                }
                &&& final(self).spec_image() is None
                &&& !final(self).spec_fading()
                &&& is_raw ==> {
                    &&& job == Some(final(self).spec_generation())
                    &&& final(self).spec_loading()
                    &&& !final(self).spec_settled()
                    &&& final(self).spec_status() == Some(loading_text())
                }
                &&& !is_raw ==> {
                    &&& job is None
                    &&& !final(self).spec_loading()
                    &&& final(self).spec_settled()
                    &&& final(self).spec_status() == Some(raw_only_text())
                }
            },
    {
        if self.is_active_for(photo_id) {
            return None;
        }
        self.photo_id = Some(photo_id);
        self.generation = self.generation.wrapping_add(1);
        self.image = None;
        self.fading = false;
        self.loading = true;
        self.settled = false;
        if !is_raw {
            self.loading = false;
            self.settled = true;
            self.status = Some("Develop preview supports RAW files only".to_string());
            return None;
        }
        self.status = Some("Loading…".to_string());
        Some(self.generation)
    }

    /// Show photo `photo_id` as failed with `message`, without a job.
    pub fn fail(&mut self, photo_id: i64, message: String)
        ensures
            final(self).spec_photo() == Some(photo_id),
            final(self).spec_generation() == if old(self).spec_generation() == u64::MAX {
                0
            } else {
                (old(self).spec_generation() + 1) as u64
            },
            final(self).spec_image() is None,
            !final(self).spec_fading(),
            !final(self).spec_loading(),
            final(self).spec_settled(),
            final(self).spec_status() == Some(message@),
    {
        self.photo_id = Some(photo_id);
        self.generation = self.generation.wrapping_add(1);
        self.image = None;
        self.fading = false;
        self.loading = false;
        self.settled = true;
        self.status = Some(message);
    }

    /// Forget the current photo; pending jobs become stale.
    pub fn clear(&mut self)
        ensures
            final(self).spec_photo() is None,
            final(self).spec_generation() == if old(self).spec_generation() == u64::MAX {
                0
            } else {
                (old(self).spec_generation() + 1) as u64
            },
            final(self).spec_image() is None,
            final(self).spec_status() is None,
            !final(self).spec_fading(),
            !final(self).spec_loading(),
            !final(self).spec_settled(),
    {
        self.photo_id = None;
        self.generation = self.generation.wrapping_add(1);
        self.image = None;
        self.fading = false;
        self.status = None;
        self.loading = false;
        self.settled = false;
    }

    /// A job of generation `generation` for photo `photo_id` delivered
    /// `d`. Stale deliveries are ignored. A placeholder is shown unless
    /// a final image already is. A final image is shown (crossfading
    /// when a placeholder is on screen) and ends loading. A failure ends
    /// loading; its message is shown only when no image is.
    pub fn deliver(&mut self, photo_id: i64, generation: u64, d: Delivery) -> (a: PreviewAction)
        ensures
            generation != old(self).spec_generation() || old(self).spec_photo() != Some(photo_id) ==> {
                &&& a == PreviewAction::Ignore
                &&& *final(self) == *old(self)
            },
            generation == old(self).spec_generation() && old(self).spec_photo() == Some(photo_id) ==> {
                &&& final(self).spec_photo() == old(self).spec_photo()
                &&& final(self).spec_generation() == old(self).spec_generation()
                &&& match d {
                    Delivery::Placeholder(k) => {
                        let replace = match old(self).spec_image() {
                            Some(cur) => !cur.is_final,
                            None => true,
                        };
                        &&& replace ==> {
                            &&& a == PreviewAction::Show { crossfade: false }
                            &&& final(self).spec_image() == Some(k)
                            &&& !final(self).spec_fading()
                            &&& final(self).spec_status() == if old(self).spec_loading() {
                                Some(loading_text())
                            } else {
                                old(self).spec_status()
                            }
                        }
                        &&& !replace ==> a == PreviewAction::Ignore && *final(self) == *old(self)
                        &&& final(self).spec_loading() == old(self).spec_loading()
                        &&& final(self).spec_settled() == old(self).spec_settled()
                    },
                    Delivery::Ready(k) => {
                        let crossfade = match old(self).spec_image() {
                            Some(cur) => cur.is_placeholder,
                            None => false,
                        };
                        &&& a == PreviewAction::Show { crossfade }
                        &&& final(self).spec_image() == Some(k)
                        &&& final(self).spec_fading() == crossfade
                        &&& !final(self).spec_loading()
                        &&& final(self).spec_settled()
                        &&& final(self).spec_status() is None
                    },
                    Delivery::Failed(e) => {
                        &&& a == PreviewAction::Ignore
                        &&& final(self).spec_image() == old(self).spec_image()
                        &&& final(self).spec_fading() == old(self).spec_fading()
                        &&& !final(self).spec_loading()
                        &&& final(self).spec_settled()
                        &&& final(self).spec_status() == if old(self).spec_image() is None {
                            Some(e@)
                        } else {
                            None
                        }
                    },
                }
            },
    {
        if generation != self.generation || self.photo_id != Some(photo_id) {
            return PreviewAction::Ignore;
        }
        match d {
            Delivery::Placeholder(k) => {
                let replace = match self.image {
                    Some(cur) => !cur.is_final,
                    None => true,
                };
                if replace {
                    self.image = Some(k);
                    self.fading = false;
                    if self.loading {
                        self.status = Some("Loading…".to_string());
                    }
                    PreviewAction::Show { crossfade: false }
                } else {
                    PreviewAction::Ignore
                }
            },
            Delivery::Ready(k) => {
                let crossfade = match self.image {
                    Some(cur) => cur.is_placeholder,
                    None => false,
                };
                self.image = Some(k);
                self.fading = crossfade;
                self.loading = false;
                self.settled = true;
                self.status = None;
                PreviewAction::Show { crossfade }
            },
            Delivery::Failed(e) => {
                self.loading = false;
                self.settled = true;
                if self.image.is_none() {
                    self.status = Some(e);
                } else {
                    self.status = None;
                }
                PreviewAction::Ignore
            },
        }
    }

    /// The crossfade ran its course: the previous image is dropped.
    pub fn finish_fade(&mut self)
        ensures
            !final(self).spec_fading(),
            final(self).spec_photo() == old(self).spec_photo(),
            final(self).spec_generation() == old(self).spec_generation(),
            final(self).spec_image() == old(self).spec_image(),
            final(self).spec_status() == old(self).spec_status(),
            final(self).spec_loading() == old(self).spec_loading(),
            final(self).spec_settled() == old(self).spec_settled(),
    {
        self.fading = false;
    }

    /// The current generation; jobs of older ones are stale.
    pub fn generation(&self) -> (r: u64)
        ensures
            r == self.spec_generation(),
    {
        self.generation
    }

    /// Whether a job for the current photo is running.
    pub fn is_loading(&self) -> (r: bool)
        ensures
            r == self.spec_loading(),
    {
        self.loading
    }

    /// Whether a crossfade is in progress.
    pub fn is_fading(&self) -> (r: bool)
        ensures
            r == self.spec_fading(),
    {
        self.fading
    }

    /// The kind of image shown, if any.
    pub fn image(&self) -> (r: Option<ImageKind>)
        ensures
            r == self.spec_image(),
    {
        self.image
    }

    /// The status line, if any.
    pub fn status(&self) -> (r: Option<&str>)
        ensures
            r matches Some(s) ==> self.spec_status() == Some(s@),
            r is None ==> self.spec_status() is None,
    {
        match &self.status {
            Some(s) => Some(s.as_str()),
            None => None,
        }
    }
}

impl Default for PreviewSession {
    fn default() -> (s: Self)
        ensures
            s.spec_photo() is None,
            s.spec_generation() == 0,
            s.spec_image() is None,
            s.spec_status() is None,
            !s.spec_loading(),
            !s.spec_settled(),
            !s.spec_fading(),
    {
        PreviewSession::new()
    }
}

} // verus!
