//! An editing session: the current image and a bounded undo history.
use crate::raster::{clone_image, RawImage, Raster};
use crate::transform::{
    make_grasyscale, rotate_image, rotated180, rotated270, rotated90, rotation_outcome,
};
use vstd::prelude::*;

verus! {

/// The most snapshots the undo history keeps.
pub const MAX_HISTORY: usize = 20;

/// A gray or RGB image with exactly one sample per channel and pixel, all of
/// whose sample positions fit in `u32`: every edit of a session applies to it.
pub open spec fn editable<T>(m: Raster<T>) -> bool {
    m.well_formed() && m.positions_fit_u32()
}

/// Whether a session can hold `image`.
pub fn is_editable<T>(image: &RawImage<T>) -> (ok: bool)
    ensures
        ok == editable(image@),
        ok == ((image.channels == 1 || image.channels == 3) && image.data@.len() == image.x_size
            * image.y_size * image.channels && image.x_size * image.y_size * image.channels
            <= 0x1_0000_0000),
{
    proof {
        law_editable_images(image@);
    }
    if image.channels != 1 && image.channels != 3 {
        return false;
    }
    let w = image.x_size as u128;
    let h = image.y_size as u128;
    let ch = image.channels as u128;
    assert(w * h <= 0xffff_ffff * 0xffff_ffffu128) by (nonlinear_arith)
        requires
            w <= 0xffff_ffff,
            h <= 0xffff_ffff,
    ;
    let pixels = w * h;
    assert(pixels * ch <= 0xffff_ffff * 0xffff_ffffu128 * 3) by (nonlinear_arith)
        requires
            pixels <= 0xffff_ffff * 0xffff_ffffu128,
            ch <= 3,
    ;
    let count = pixels * ch;
    count == image.data.len() as u128 && count <= 0x1_0000_0000
}

/// A session holds exactly the gray and RGB images whose buffer has one
/// sample per channel and pixel and at most 2^32 samples (so that every
/// sample position fits in `u32`); there is no other size limit.
pub proof fn law_editable_images<T>(m: Raster<T>)
    ensures
        editable(m) <==> ((m.channels == 1 || m.channels == 3) && m.samples.len() == m.width * m.height
            * m.channels && m.width * m.height * m.channels <= 0x1_0000_0000),
{
}

/// The views of a list of images.
pub open spec fn views<T>(images: Seq<RawImage<T>>) -> Seq<Raster<T>> {
    images.map_values(|i: RawImage<T>| i@)
}

/// The view of an optional image.
pub open spec fn view_of<T>(image: Option<RawImage<T>>) -> Option<Raster<T>> {
    match image {
        Some(i) => Some(i@),
        None => None,
    }
}

/// The history after snapshotting `current`: it is appended, and the oldest
/// snapshot is dropped when the history grows past `MAX_HISTORY`. Without a
/// current image the history stays as it is.
pub open spec fn pushed<T>(history: Seq<Raster<T>>, current: Option<Raster<T>>) -> Seq<Raster<T>> {
    match current {
        Some(c) => {
            let longer = history.push(c);
            if longer.len() > MAX_HISTORY {
                longer.subrange(1, longer.len() as int)
            } else {
                longer
            }
        },
        None => history,
    }
}

/// Snapshots the current image, if there is one, onto the history; the oldest
/// snapshot is dropped when the history grows past `MAX_HISTORY`.
pub fn push_history<T: Copy>(img: &mut Option<RawImage<T>>, history: &mut Vec<RawImage<T>>)
    ensures
        view_of(*final(img)) == view_of(*old(img)),
        views(final(history)@) == pushed(views(old(history)@), view_of(*old(img))),
{
    if let Some(current) = img {
        let snapshot = clone_image(current);
        let ghost before = history@;
        history.push(snapshot);
        assert(views(history@) =~= views(before).push(current@));
        if history.len() > MAX_HISTORY {
            let ghost longer = history@;
            history.remove(0);
            assert(views(history@) =~= views(longer).subrange(1, longer.len() as int));
        }
    }
}

/// The state of a session: the current image, if any, and the undo history,
/// oldest snapshot first.
pub struct SessionView<T> {
    pub current: Option<Raster<T>>,
    pub history: Seq<Raster<T>>,
}

/// The session after an edit that replaces the current image by `image`.
pub open spec fn committed<T>(s: SessionView<T>, image: Raster<T>) -> SessionView<T> {
    SessionView { current: Some(image), history: pushed(s.history, s.current) }
}

/// The session after undoing the last edit: the latest snapshot becomes current.
pub open spec fn undone<T>(s: SessionView<T>) -> SessionView<T> {
    SessionView { current: Some(s.history.last()), history: s.history.drop_last() }
}

/// Why an edit was not applied.
#[derive(Debug, PartialEq)]
pub enum EditError {
    /// There is no current image.
    NoImage,
    /// The rotation angle was refused, with the rotation's message.
    InvalidAngle(String),
    /// The history is empty.
    NothingToUndo,
}

/// What a grayscale request did.
#[derive(Debug, PartialEq)]
pub enum GrayscaleOutcome {
    /// The current image has one channel already; nothing changed.
    AlreadyGrayscale,
    /// The current image was reduced to one channel.
    Applied,
}

/// An image being edited, with undo. Every image it holds is editable, and
/// the history holds at most `MAX_HISTORY` snapshots.
pub struct Session<T> {
    image: Option<RawImage<T>>,
    history: Vec<RawImage<T>>,
}

impl<T> View for Session<T> {
    type V = SessionView<T>;

    closed spec fn view(&self) -> SessionView<T> {
        SessionView { current: view_of(self.image), history: views(self.history@) }
    }
}

impl<T> Session<T> {
    #[verifier::type_invariant]
    spec fn inv(self) -> bool {
        &&& self.history.len() <= MAX_HISTORY
        &&& self.image matches Some(i) ==> editable(i@)
        &&& forall|k: int| 0 <= k < self.history.len() ==> editable(#[trigger] self.history[k]@)
    }
}

impl<T: Copy> Session<T> {
    /// Moves the current image and the history out, leaving an empty session.
    fn take_parts(&mut self) -> (parts: (Option<RawImage<T>>, Vec<RawImage<T>>))
        ensures
            view_of(parts.0) == old(self)@.current,
            views(parts.1@) == old(self)@.history,
            parts.1.len() <= MAX_HISTORY,
            parts.0 matches Some(i) ==> editable(i@),
            forall|k: int| 0 <= k < parts.1.len() ==> editable(#[trigger] parts.1[k]@),
            final(self)@.current is None,
            final(self)@.history.len() == 0,
    {
        proof {
            use_type_invariant(&*self);
        }
        let mut image: Option<RawImage<T>> = None;
        let mut history: Vec<RawImage<T>> = Vec::new();
        std::mem::swap(&mut image, &mut self.image);
        std::mem::swap(&mut history, &mut self.history);
        (image, history)
    }

    /// An empty session: no image, no history.
    pub fn new() -> (s: Self)
        ensures
            s@.current is None,
            s@.history == Seq::<Raster<T>>::empty(),
    {
        let s = Session { image: None, history: Vec::new() };
        assert(views(s.history@) =~= Seq::<Raster<T>>::empty());
        s
    }

    /// The current image.
    pub fn current(&self) -> (image: Option<&RawImage<T>>)
        ensures
            self@.current == match image {
                Some(i) => Some(i@),
                None => None::<Raster<T>>,
            },
    {
        self.image.as_ref()
    }

    /// Starts over with `image`: it becomes current and the history is cleared.
    pub fn upload(&mut self, image: RawImage<T>)
        requires
            editable(image@),
        ensures
            final(self)@.current == Some(image@),
            final(self)@.history == Seq::<Raster<T>>::empty(),
            final(self)@.history.len() <= MAX_HISTORY,
    {
        let history: Vec<RawImage<T>> = Vec::new();
        assert(views(history@) =~= Seq::<Raster<T>>::empty());
        *self = Session { image: Some(image), history };
    }

    /// Snapshots the current image and makes `image` current.
    pub fn commit(&mut self, image: RawImage<T>)
        requires
            editable(image@),
        ensures
            final(self)@ == committed(old(self)@, image@),
            final(self)@.history.len() <= MAX_HISTORY,
    {
        proof {
            use_type_invariant(&*self);
        }
        let (mut current, mut history) = self.take_parts();
        let ghost before = history@;
        push_history(&mut current, &mut history);
        proof {
            lemma_push_keeps_editable(before, history@, view_of(current));
        }
        *self = Session { image: Some(image), history };
    }

    /// Whether there is an edit to undo.
    pub fn can_undo(&self) -> (can: bool)
        ensures
            can == (self@.history.len() > 0),
    {
        !self.history.is_empty()
    }

    /// Makes the latest snapshot current again, or reports that there is none.
    pub fn undo(&mut self) -> (result: Result<(), EditError>)
        ensures
            old(self)@.history.len() == 0 ==> result == Err::<(), EditError>(EditError::NothingToUndo)
                && final(self)@ == old(self)@,
            old(self)@.history.len() > 0 ==> result is Ok && final(self)@ == undone(old(self)@),
            final(self)@.history.len() <= MAX_HISTORY,
    {
        proof {
            use_type_invariant(&*self);
        }
        if self.history.len() == 0 {
            return Err(EditError::NothingToUndo);
        }
        let (_current, mut history) = self.take_parts();
        let ghost before = history@;
        match history.pop() {
            Some(previous) => {
                proof {
                    assert(views(history@) =~= views(before).drop_last());
                    assert(previous@ == views(before).last());
                    assert(editable(before[before.len() - 1]@));
                    assert forall|k: int| 0 <= k < history.len() implies editable(
                        #[trigger] history[k]@,
                    ) by {
                        assert(history[k] == before[k]);
                    }
                }
                *self = Session { image: Some(previous), history };
                Ok(())
            },
            None => Err(EditError::NothingToUndo),
        }
    }

    /// Reduces the current RGB image to one channel with `average`, keeping
    /// a snapshot; a single-channel image is left as it is.
    pub fn grayscale<F: Fn(T, T, T) -> T>(&mut self, average: F) -> (result: Result<
        GrayscaleOutcome,
        EditError,
    >)
        requires
            forall|r: T, g: T, b: T| average.requires((r, g, b)),
        ensures
            (match old(self)@.current {
                None => result == Err::<GrayscaleOutcome, EditError>(EditError::NoImage)
                    && final(self)@ == old(self)@,
                Some(c) => if c.channels == 1 {
                    result == Ok::<GrayscaleOutcome, EditError>(GrayscaleOutcome::AlreadyGrayscale)
                        && final(self)@ == old(self)@
                } else {
                    &&& result == Ok::<GrayscaleOutcome, EditError>(GrayscaleOutcome::Applied)
                    &&& final(self)@.history == pushed(old(self)@.history, old(self)@.current)
                    &&& final(self)@.current is Some
                    &&& is_grayscale_of(c, final(self)@.current.unwrap(), average)
                },
            }),
            final(self)@.history.len() <= MAX_HISTORY,
    {
        proof {
            use_type_invariant(&*self);
        }
        match &self.image {
            None => Err(EditError::NoImage),
            Some(current) => {
                if current.channels == 1 {
                    Ok(GrayscaleOutcome::AlreadyGrayscale)
                } else {
                    let mut copy = clone_image(current);
                    proof {
                        lemma_rgb_length(copy@);
                    }
                    let gray = make_grasyscale(&mut copy, average);
                    proof {
                        lemma_gray_editable(copy@, gray@);
                    }
                    self.commit(gray);
                    Ok(GrayscaleOutcome::Applied)
                }
            },
        }
    }

    /// Rotates the current image clockwise by `angle` degrees (0, 90, 180 or
    /// 270), keeping a snapshot. Any other angle is refused with the
    /// rotation's message and nothing changes.
    pub fn rotate(&mut self, angle: u32) -> (result: Result<(), EditError>)
        ensures
            old(self)@.current is None ==> result == Err::<(), EditError>(EditError::NoImage)
                && final(self)@ == old(self)@,
            old(self)@.current matches Some(c) ==> match rotation_outcome(c, angle) {
                Ok(r) => result is Ok && final(self)@ == committed(old(self)@, r),
                Err(msg) => result matches Err(EditError::InvalidAngle(m)) && m@ == msg
                    && final(self)@ == old(self)@,
            },
            final(self)@.history.len() <= MAX_HISTORY,
    {
        proof {
            use_type_invariant(&*self);
        }
        match &self.image {
            None => Err(EditError::NoImage),
            Some(current) => {
                proof {
                    lemma_editable_rotatable(current@);
                }
                match rotate_image(current, angle) {
                    Ok(rotated) => {
                        proof {
                            lemma_rotation_editable(current@, angle);
                        }
                        self.commit(rotated);
                        Ok(())
                    },
                    Err(msg) => Err(EditError::InvalidAngle(msg)),
                }
            },
        }
    }

    /// The current image as one channel: an RGB image reduced with
    /// `average`, a single-channel image copied.
    pub fn single_channel<F: Fn(T, T, T) -> T>(&self, average: F) -> (gray: Option<RawImage<T>>)
        requires
            forall|r: T, g: T, b: T| average.requires((r, g, b)),
        ensures
            (match self@.current {
                None => gray is None,
                Some(c) => gray is Some && if c.channels == 3 {
                    is_grayscale_of(c, gray.unwrap()@, average)
                } else {
                    gray.unwrap()@ == c
                },
            }),
    {
        proof {
            use_type_invariant(self);
        }
        match &self.image {
            None => None,
            Some(current) => {
                let mut copy = clone_image(current);
                if copy.channels == 3 {
                    proof {
                        lemma_rgb_length(copy@);
                    }
                    Some(make_grasyscale(&mut copy, average))
                } else {
                    Some(copy)
                }
            },
        }
    }
}

/// `gray` is the reduction of the RGB image `rgb` by `average`: one channel,
/// the same size, and sample `i` a possible result of `average` on the
/// `i`-th triple of `rgb`.
pub open spec fn is_grayscale_of<T, F: Fn(T, T, T) -> T>(rgb: Raster<T>, gray: Raster<T>, average: F) -> bool {
    &&& gray.width == rgb.width
    &&& gray.height == rgb.height
    &&& gray.channels == 1
    &&& gray.samples.len() == rgb.samples.len() / 3
    &&& forall|i: int|
        0 <= i < gray.samples.len() ==> average.ensures(
            (rgb.samples[3 * i], rgb.samples[3 * i + 1], rgb.samples[3 * i + 2]),
            #[trigger] gray.samples[i],
        )
}

proof fn lemma_push_keeps_editable<T>(
    before: Seq<RawImage<T>>,
    after: Seq<RawImage<T>>,
    current: Option<Raster<T>>,
)
    requires
        before.len() <= MAX_HISTORY,
        forall|k: int| 0 <= k < before.len() ==> editable(#[trigger] before[k]@),
        current matches Some(c) ==> editable(c),
        views(after) == pushed(views(before), current),
    ensures
        after.len() <= MAX_HISTORY,
        forall|k: int| 0 <= k < after.len() ==> editable(#[trigger] after[k]@),
{
    let vb = views(before);
    let va = views(after);
    assert(va.len() == after.len());
    assert forall|k: int| 0 <= k < after.len() implies editable(#[trigger] after[k]@) by {
        assert(va[k] == after[k]@);
        match current {
            Some(c) => {
                let longer = vb.push(c);
                if longer.len() > MAX_HISTORY {
                    assert(va[k] == longer[k + 1]);
                    if k + 1 < vb.len() {
                        assert(vb[k + 1] == before[k + 1]@);
                    }
                } else {
                    assert(va[k] == longer[k]);
                    if k < vb.len() {
                        assert(vb[k] == before[k]@);
                    }
                }
            },
            None => {
                assert(vb[k] == before[k]@);
            },
        }
    }
}

proof fn lemma_rgb_length<T>(m: Raster<T>)
    requires
        editable(m),
        m.channels != 1,
    ensures
        m.channels == 3,
        m.samples.len() % 3 == 0,
{
    crate::layout::lemma_count_nonnegative(m.width as int, m.height as int, 3);
    assert((m.width * m.height * 3) % 3 == 0) by (nonlinear_arith);
}

proof fn lemma_gray_editable<T>(rgb: Raster<T>, gray: Raster<T>)
    requires
        editable(rgb),
        rgb.channels == 3,
        gray.width == rgb.width,
        gray.height == rgb.height,
        gray.channels == 1,
        gray.samples.len() == rgb.samples.len() / 3,
    ensures
        editable(gray),
{
    assert(gray.samples.len() == gray.width * gray.height * 1) by (nonlinear_arith)
        requires
            gray.samples.len() == rgb.samples.len() / 3,
            rgb.samples.len() == rgb.width * rgb.height * 3,
            gray.width == rgb.width,
            gray.height == rgb.height,
    ;
    assert(gray.width * gray.height * 1 <= rgb.width * rgb.height * 3) by (nonlinear_arith)
        requires
            gray.width == rgb.width,
            gray.height == rgb.height,
    ;
}

proof fn lemma_editable_rotatable<T>(m: Raster<T>)
    requires
        editable(m),
    ensures
        forall|angle: u32| crate::transform::can_rotate_by(m, angle),
{
}

proof fn lemma_rotation_editable<T>(m: Raster<T>, angle: u32)
    requires
        editable(m),
    ensures
        rotation_outcome(m, angle) matches Ok(r) ==> editable(r),
{
    let w = m.width as int;
    let h = m.height as int;
    let ch = m.channels as int;
    crate::layout::lemma_count_nonnegative(w, h, ch);
    let q = rotated90(m);
    let hf = rotated180(m);
    let t = rotated270(m);
    assert(q.expected_len() == m.expected_len());
    assert(t.expected_len() == m.expected_len());
    assert(hf.expected_len() == m.expected_len());
}

/// Undoing an edit right after it restores the image that was current
/// before the edit; the history is restored too, except that a full history
/// has lost its oldest snapshot.
pub proof fn law_undo_restores_previous_image<T>(s: SessionView<T>, image: Raster<T>)
    requires
        s.current is Some,
        s.history.len() <= MAX_HISTORY,
    ensures
        undone(committed(s, image)).current == s.current,
        undone(committed(s, image)).history == if s.history.len() < MAX_HISTORY {
            s.history
        } else {
            s.history.subrange(1, s.history.len() as int)
        },
{
    let after = committed(s, image);
    let longer = s.history.push(s.current.unwrap());
    if longer.len() > MAX_HISTORY {
        assert(after.history.drop_last() =~= s.history.subrange(1, s.history.len() as int));
    } else {
        assert(after.history.drop_last() =~= s.history);
    }
}

/// Snapshotting appends the current image as the newest snapshot; a history
/// already holding `MAX_HISTORY` snapshots loses its oldest one, so it never
/// grows past `MAX_HISTORY`. Without a current image nothing is recorded.
pub proof fn law_push_history<T>(history: Seq<Raster<T>>, current: Raster<T>)
    requires
        history.len() <= MAX_HISTORY,
    ensures
        pushed(history, Some(current)).len() == if history.len() < 20 {
            history.len() + 1
        } else {
            20
        },
        pushed(history, Some(current)).last() == current,
        forall|i: int|
            0 <= i < pushed(history, Some(current)).len() - 1 ==> #[trigger] pushed(
                history,
                Some(current),
            )[i] == if history.len() < 20 {
                history[i]
            } else {
                history[i + 1]
            },
        pushed(history, None) == history,
        MAX_HISTORY == 20,
{
}

/// Undoing makes the newest snapshot current and removes it from the history.
pub proof fn law_undo_takes_newest_snapshot<T>(s: SessionView<T>)
    requires
        s.history.len() > 0,
    ensures
        undone(s).current == Some(s.history[s.history.len() - 1]),
        undone(s).history == s.history.subrange(0, s.history.len() - 1),
        committed(s, s.history[0]).current == Some(s.history[0]),
{
    assert(undone(s).history =~= s.history.subrange(0, s.history.len() - 1));
}

} // verus!
