use std::collections::BTreeMap;
use vstd::prelude::*;

verus! {

/// A frame in a shared texture, as the screen side gets it.
#[derive(Debug, Clone, Copy, PartialEq, Eq, Structural)]
pub struct SharedFrame {
    pub texture_handle: u64,
    /// What the fence must reach before the texture is read.
    pub fence_value: u64,
    pub width: u32,
    pub height: u32,
}

/// What to do next on the way to showing a shared frame.
#[derive(Debug, Clone, Copy, PartialEq, Eq, Structural)]
pub enum ImportAction {
    /// Get hold of the graphics device.
    OpenDevice,
    /// Open the shared fence.
    OpenFence,
    /// Ask how far the fence has come.
    ReadFence,
    /// Open the shared texture.
    ImportTexture,
    /// Draw the texture.
    Show,
    /// Leave the frame out.
    Skip,
    /// Leave the frame out and stop sharing textures.
    Disable,
}

/// How an action went.
#[derive(Debug, Clone, Copy, PartialEq, Eq, Structural)]
pub enum ImportOutcome {
    /// What was asked for is there.
    Opened,
    /// The call succeeded without giving anything.
    Missing,
    /// The call failed.
    Failed,
    /// How far the fence has come.
    Reached(u64),
}

/// What has been opened so far.
#[verifier::ext_equal]
pub ghost struct ImportModel {
    pub device: bool,
    pub fence: bool,
    pub textures: Set<u64>,
    pub dims: Option<(u32, u32)>,
}

impl ImportModel {
    pub open spec fn fresh() -> Self {
        ImportModel { device: false, fence: false, textures: Set::empty(), dims: None }
    }

    /// Textures of other dimensions are given up.
    pub open spec fn begun(self, frame: SharedFrame) -> Self {
        if self.dims == Some((frame.width, frame.height)) {
            self
        } else {
            ImportModel {
                textures: Set::empty(),
                dims: Some((frame.width, frame.height)),
                ..self
            }
        }
    }

    /// The next action, as far as what is open goes.
    pub open spec fn needs(self) -> ImportAction {
        if !self.device {
            ImportAction::OpenDevice
        } else if !self.fence {
            ImportAction::OpenFence
        } else {
            ImportAction::ReadFence
        }
    }

    pub open spec fn advanced(
        self,
        frame: SharedFrame,
        action: ImportAction,
        outcome: ImportOutcome,
    ) -> (Self, ImportAction) {
        match (action, outcome) {
            (ImportAction::OpenDevice, ImportOutcome::Opened) => {
                let next = ImportModel { device: true, ..self };
                (next, next.needs())
            },
            (ImportAction::OpenFence, ImportOutcome::Opened) => {
                let next = ImportModel { fence: true, ..self };
                (next, next.needs())
            },
            (ImportAction::OpenFence, ImportOutcome::Failed) => (self, ImportAction::Disable),
            (ImportAction::ReadFence, ImportOutcome::Reached(value)) => (
                self,
                if value < frame.fence_value {
                    ImportAction::Skip
                } else if self.textures.contains(frame.texture_handle) {
                    ImportAction::Show
                } else {
                    ImportAction::ImportTexture
                },
            ),
            (ImportAction::ImportTexture, ImportOutcome::Opened) => (
                ImportModel { textures: self.textures.insert(frame.texture_handle), ..self },
                ImportAction::Show,
            ),
            (ImportAction::ImportTexture, _) => (self, ImportAction::Disable),
            _ => (self, ImportAction::Skip),
        }
    }
}

/// Decides how shared frames get to the screen: what is opened, once each, and
/// which frames are left out.
#[derive(Debug)]
pub struct SharedNvImporter {
    device: bool,
    fence: bool,
    textures: BTreeMap<u64, bool>,
    last_dims: Option<(u32, u32)>,
}

impl View for SharedNvImporter {
    type V = ImportModel;

    closed spec fn view(&self) -> ImportModel {
        ImportModel {
            device: self.device,
            fence: self.fence,
            textures: self.textures@.dom(),
            dims: self.last_dims,
        }
    }
}

impl SharedNvImporter {
    pub fn new() -> (r: Self)
        ensures
            r@ == ImportModel::fresh(),
    {
        let r = SharedNvImporter {
            device: false,
            fence: false,
            textures: BTreeMap::new(),
            last_dims: None,
        };
        assert(r@ =~= ImportModel::fresh());
        r
    }

    fn needs(&self) -> (r: ImportAction)
        ensures
            r == self@.needs(),
    {
        if !self.device {
            ImportAction::OpenDevice
        } else if !self.fence {
            ImportAction::OpenFence
        } else {
            ImportAction::ReadFence
        }
    }

    /// Begins with a frame.  Returns the first action and whether textures
    /// opened before are given up.
    pub fn prepare(&mut self, frame: &SharedFrame) -> (r: (ImportAction, bool))
        ensures
            final(self)@ == old(self)@.begun(*frame),
            r == (
                final(self)@.needs(),
                old(self)@.dims != Some((frame.width, frame.height)),
            ),
    {
        let same = match self.last_dims {
            Some((w, h)) => w == frame.width && h == frame.height,
            None => false,
        };
        if !same {
            self.textures = BTreeMap::new();
            self.last_dims = Some((frame.width, frame.height));
        }
        assert(self@ =~= old(self)@.begun(*frame));
        (self.needs(), !same)
    }

    /// Moves on after an action.
    pub fn advance(
        &mut self,
        frame: &SharedFrame,
        action: ImportAction,
        outcome: ImportOutcome,
    ) -> (r: ImportAction)
        ensures
            (final(self)@, r) == old(self)@.advanced(*frame, action, outcome),
    {
        broadcast use vstd::std_specs::btree::group_btree_axioms;

        let r = match (action, outcome) {
            (ImportAction::OpenDevice, ImportOutcome::Opened) => {
                self.device = true;
                self.needs()
            },
            (ImportAction::OpenFence, ImportOutcome::Opened) => {
                self.fence = true;
                self.needs()
            },
            (ImportAction::OpenFence, ImportOutcome::Failed) => ImportAction::Disable,
            (ImportAction::ReadFence, ImportOutcome::Reached(value)) => {
                if value < frame.fence_value {
                    ImportAction::Skip
                } else if self.textures.contains_key(&frame.texture_handle) {
                    ImportAction::Show
                } else {
                    ImportAction::ImportTexture
                }
            },
            (ImportAction::ImportTexture, ImportOutcome::Opened) => {
                let _before = self.textures.insert(frame.texture_handle, true);
                ImportAction::Show
            },
            (ImportAction::ImportTexture, _) => ImportAction::Disable,
            _ => ImportAction::Skip,
        };
        assert(self@ =~= old(self)@.advanced(*frame, action, outcome).0);
        r
    }
}

impl ImportModel {
    /// Where a frame has got to after its actions came out as given.
    pub open spec fn led(self, frame: SharedFrame, outcomes: Seq<ImportOutcome>) -> (
        Self,
        ImportAction,
    )
        decreases outcomes.len(),
    {
        if outcomes.len() == 0 {
            (self.begun(frame), self.begun(frame).needs())
        } else {
            let (before, action) = self.led(frame, outcomes.drop_last());
            before.advanced(frame, action, outcomes.last())
        }
    }

    /// Whether the fence was found to have reached the frame's value.
    pub open spec fn found_finished(
        self,
        frame: SharedFrame,
        outcomes: Seq<ImportOutcome>,
        i: int,
    ) -> bool {
        &&& 0 <= i < outcomes.len()
        &&& self.led(frame, outcomes.take(i)).1 == ImportAction::ReadFence
        &&& outcomes[i] matches ImportOutcome::Reached(value) && value >= frame.fence_value
    }
}

/// However the actions for a frame come out, its texture is opened and shown
/// only after the fence was found to have reached the frame's value.
pub proof fn law_unfinished_frames_are_not_shown(
    start: ImportModel,
    frame: SharedFrame,
    outcomes: Seq<ImportOutcome>,
)
    requires
        start.led(frame, outcomes).1 == ImportAction::Show || start.led(frame, outcomes).1
            == ImportAction::ImportTexture,
    ensures
        exists|i: int| #[trigger] start.found_finished(frame, outcomes, i),
    decreases outcomes.len(),
{
    let rest = outcomes.drop_last();
    let action = start.led(frame, rest).1;
    let last = outcomes.len() - 1;
    assert(outcomes.take(last) =~= rest);
    if action == ImportAction::ImportTexture {
        law_unfinished_frames_are_not_shown(start, frame, rest);
        let i = choose|i: int| start.found_finished(frame, rest, i);
        assert(outcomes.take(i) =~= rest.take(i));
        assert(start.found_finished(frame, outcomes, i));
    } else {
        assert(start.found_finished(frame, outcomes, last));
    }
}

/// A texture that was shown is not opened again until the dimensions change.
pub proof fn law_textures_are_opened_once(
    before: ImportModel,
    frame: SharedFrame,
    later: SharedFrame,
    value: u64,
)
    requires
        later.texture_handle == frame.texture_handle,
    ensures
        before.advanced(frame, ImportAction::ImportTexture, ImportOutcome::Opened).0.advanced(
            later,
            ImportAction::ReadFence,
            ImportOutcome::Reached(value),
        ).1 != ImportAction::ImportTexture,
{
}

/// The device is opened first, then the fence, each only while it is not
/// open; then the fence is read for every frame.
pub proof fn law_device_and_fence_are_opened_once(m: ImportModel, frame: SharedFrame)
    ensures
        !m.device ==> m.needs() == ImportAction::OpenDevice,
        m.device && !m.fence ==> m.needs() == ImportAction::OpenFence,
        m.device && m.fence ==> m.needs() == ImportAction::ReadFence,
        ({
            let (next, action) = m.advanced(
                frame,
                ImportAction::OpenDevice,
                ImportOutcome::Opened,
            );
            &&& next.device && next.fence == m.fence
            &&& next.textures == m.textures && next.dims == m.dims
            &&& action == if m.fence {
                ImportAction::ReadFence
            } else {
                ImportAction::OpenFence
            }
        }),
        ({
            let (next, action) = m.advanced(frame, ImportAction::OpenFence, ImportOutcome::Opened);
            &&& next.fence && next.device == m.device
            &&& next.textures == m.textures && next.dims == m.dims
            &&& m.device ==> action == ImportAction::ReadFence
        }),
{
}

/// A frame whose value the fence has not reached is left out.  One whose value
/// it has reached is shown, at once where its texture is open and otherwise
/// after the texture was opened.
pub proof fn law_finished_frames_are_shown(m: ImportModel, frame: SharedFrame, value: u64)
    ensures
        ({
            let (read, action) = m.advanced(
                frame,
                ImportAction::ReadFence,
                ImportOutcome::Reached(value),
            );
            let (opened, after) = m.advanced(
                frame,
                ImportAction::ImportTexture,
                ImportOutcome::Opened,
            );
            &&& read == m
            &&& value < frame.fence_value <==> action == ImportAction::Skip
            &&& value >= frame.fence_value && m.textures.contains(frame.texture_handle)
                <==> action == ImportAction::Show
            &&& value >= frame.fence_value && !m.textures.contains(frame.texture_handle)
                <==> action == ImportAction::ImportTexture
            &&& after == ImportAction::Show
            &&& forall|h: u64| #[trigger]
                opened.textures.contains(h) <==> m.textures.contains(h) || h
                    == frame.texture_handle
            &&& opened.device == m.device && opened.fence == m.fence && opened.dims == m.dims
        }),
{
}

/// Sharing is stopped when the fence could not be opened or a texture was not,
/// and for nothing else; whatever else goes wrong leaves the frame out.
pub proof fn law_failed_openings_stop_the_sharing(
    m: ImportModel,
    frame: SharedFrame,
    action: ImportAction,
    outcome: ImportOutcome,
)
    ensures
        m.advanced(frame, action, outcome).1 == ImportAction::Disable <==> (action
            == ImportAction::OpenFence && outcome == ImportOutcome::Failed) || (action
            == ImportAction::ImportTexture && outcome != ImportOutcome::Opened),
        outcome is Missing || outcome is Failed ==> m.advanced(frame, action, outcome).0 == m,
        (outcome is Missing || outcome is Failed) && action != ImportAction::ImportTexture && !(
        action == ImportAction::OpenFence && outcome is Failed) ==> m.advanced(
            frame,
            action,
            outcome,
        ).1 == ImportAction::Skip,
{
}

/// Textures are given up when a frame of other dimensions comes, and only
/// then; the device and the fence stay open.
pub proof fn law_new_dimensions_give_textures_up(m: ImportModel, frame: SharedFrame, h: u64)
    ensures
        m.begun(frame).dims == Some((frame.width, frame.height)),
        m.begun(frame).device == m.device,
        m.begun(frame).fence == m.fence,
        m.dims == Some((frame.width, frame.height)) ==> m.begun(frame).textures.contains(h)
            == m.textures.contains(h),
        m.dims != Some((frame.width, frame.height)) ==> !m.begun(frame).textures.contains(h),
        ImportModel::fresh().dims is None && !ImportModel::fresh().device
            && !ImportModel::fresh().fence,
        !ImportModel::fresh().textures.contains(h),
{
}

} // verus!
