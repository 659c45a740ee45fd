//! Project model, edit commands, and the undo/redo session.
//!
//! A tempo is carried as the IEEE-754 bit pattern of the `f64` beats-per-minute
//! value; the library never does floating-point arithmetic on it.
use vstd::prelude::*;

use crate::text::{is_blank, str_is_blank};

verus! {

/// Identifier of a project entity such as a track.
pub type EntityId = u128;

/// Bit pattern of the `f64` value 20.0, the slowest accepted tempo.
pub const MIN_TEMPO_BITS: u64 = 0x4034_0000_0000_0000;

/// Bit pattern of the `f64` value 400.0, the fastest accepted tempo.
pub const MAX_TEMPO_BITS: u64 = 0x4079_0000_0000_0000;

/// Bit pattern of the `f64` value 120.0, the tempo of a new project.
pub const DEFAULT_TEMPO_BITS: u64 = 0x405E_0000_0000_0000;

/// A finite `f64` lies in `[20.0, 400.0]` exactly when its bit pattern lies
/// between those of the two bounds: positive finite doubles are ordered like
/// their bit patterns, while negative values, infinities and NaNs all have
/// patterns above `MAX_TEMPO_BITS`.
pub open spec fn tempo_in_range(bits: u64) -> bool {
    MIN_TEMPO_BITS <= bits <= MAX_TEMPO_BITS
}

/// One track of a project.
#[derive(Clone, Debug, PartialEq)]
pub struct Track {
    pub id: EntityId,
    pub name: String,
}

/// Abstract value of a track.
pub struct TrackView {
    pub id: EntityId,
    pub name: Seq<char>,
}

impl View for Track {
    type V = TrackView;

    open spec fn view(&self) -> TrackView {
        TrackView { id: self.id, name: self.name@ }
    }
}

/// An editable project.
#[derive(Clone, Debug, PartialEq)]
pub struct Project {
    pub id: String,
    pub revision: u64,
    /// Bit pattern of the tempo in beats per minute.
    pub tempo: u64,
    pub tracks: Vec<Track>,
}

/// Abstract value of a project.
pub struct ProjectView {
    pub id: Seq<char>,
    pub revision: u64,
    pub tempo: u64,
    pub tracks: Seq<TrackView>,
}

impl View for Project {
    type V = ProjectView;

    open spec fn view(&self) -> ProjectView {
        ProjectView {
            id: self.id@,
            revision: self.revision,
            tempo: self.tempo,
            tracks: self.tracks@.map_values(|t: Track| t@),
        }
    }
}

/// An edit of a project.
#[derive(Clone, Debug, PartialEq)]
pub enum Command {
    /// Sets the tempo; `bpm` is the bit pattern of the `f64` value.
    SetTempo { bpm: u64 },
    CreateTrack { id: EntityId, name: String },
    DeleteTrack { id: EntityId },
}

/// Abstract value of a command.
pub enum CommandView {
    SetTempo { bpm: u64 },
    CreateTrack { id: EntityId, name: Seq<char> },
    DeleteTrack { id: EntityId },
}

impl View for Command {
    type V = CommandView;

    open spec fn view(&self) -> CommandView {
        match self {
            Command::SetTempo { bpm } => CommandView::SetTempo { bpm: *bpm },
            Command::CreateTrack { id, name } => CommandView::CreateTrack { id: *id, name: name@ },
            Command::DeleteTrack { id } => CommandView::DeleteTrack { id: *id },
        }
    }
}

/// Why a command was refused.
#[derive(Clone, Copy, Debug, PartialEq, Eq, Structural)]
pub enum CommandError {
    TempoOutOfRange,
    EmptyTrackName,
    TrackAlreadyExists,
    TrackNotFound,
    NothingToUndo,
    NothingToRedo,
}

/// The command-local checks: a tempo must lie in range and a new track
/// must have a name that is not blank.
pub open spec fn validate_spec(c: CommandView) -> Result<(), CommandError> {
    match c {
        CommandView::SetTempo { bpm } => if tempo_in_range(bpm) {
            Ok(())
        } else {
            Err(CommandError::TempoOutOfRange)
        },
        CommandView::CreateTrack { id, name } => if is_blank(name) {
            Err(CommandError::EmptyTrackName)
        } else {
            Ok(())
        },
        CommandView::DeleteTrack { id } => Ok(()),
    }
}

/// Index of the first track at or after `i` whose id is `id`.
pub open spec fn position_from(tracks: Seq<TrackView>, id: EntityId, i: int) -> Option<int>
    decreases tracks.len() - i,
{
    if i < 0 || i >= tracks.len() {
        None
    } else if tracks[i].id == id {
        Some(i)
    } else {
        position_from(tracks, id, i + 1)
    }
}

/// What `position_from` finds: the first matching index at or after `i`,
/// or no match in that range.
pub proof fn lemma_position_from(tracks: Seq<TrackView>, id: EntityId, i: int)
    requires
        0 <= i,
    ensures
        match position_from(tracks, id, i) {
            Some(k) => i <= k < tracks.len() && tracks[k].id == id && forall|j: int|
                i <= j < k ==> #[trigger] tracks[j].id != id,
            None => forall|j: int| i <= j < tracks.len() ==> #[trigger] tracks[j].id != id,
        },
    decreases tracks.len() - i,
{
    if i < tracks.len() && tracks[i].id != id {
        lemma_position_from(tracks, id, i + 1);
    }
}

/// Index of the first track whose id is `id`.
pub open spec fn track_position(tracks: Seq<TrackView>, id: EntityId) -> Option<int> {
    position_from(tracks, id, 0)
}

/// The revision after one more applied command (it saturates at the top).
pub open spec fn next_revision(r: u64) -> u64 {
    if r == u64::MAX {
        r
    } else {
        (r + 1) as u64
    }
}

/// What applying `c` to `p` gives: the new project and the command that
/// reverts it, or the reason for refusing `c` (the project is then unchanged).
pub open spec fn apply_spec(p: ProjectView, c: CommandView) -> Result<(ProjectView, CommandView), CommandError> {
    match validate_spec(c) {
        Err(e) => Err(e),
        Ok(_) => match c {
            CommandView::SetTempo { bpm } => Ok(
                (
                    ProjectView { tempo: bpm, revision: next_revision(p.revision), ..p },
                    CommandView::SetTempo { bpm: p.tempo },
                ),
            ),
            CommandView::CreateTrack { id, name } => if track_position(p.tracks, id) is Some {
                Err(CommandError::TrackAlreadyExists)
            } else {
                Ok(
                    (
                        ProjectView {
                            tracks: p.tracks.push(TrackView { id, name }),
                            revision: next_revision(p.revision),
                            ..p
                        },
                        CommandView::DeleteTrack { id },
                    ),
                )
            },
            CommandView::DeleteTrack { id } => match track_position(p.tracks, id) {
                None => Err(CommandError::TrackNotFound),
                Some(k) => Ok(
                    (
                        ProjectView {
                            tracks: p.tracks.remove(k),
                            revision: next_revision(p.revision),
                            ..p
                        },
                        CommandView::CreateTrack { id: p.tracks[k].id, name: p.tracks[k].name },
                    ),
                ),
            },
        },
    }
}

impl Project {
    /// A new, empty project at revision 0 with a tempo of 120 BPM.
    pub fn new(id: &str) -> (p: Project)
        ensures
            p@.id == id@,
            p@.revision == 0,
            p@.tempo == DEFAULT_TEMPO_BITS,
            p@.tracks == Seq::<TrackView>::empty(),
            well_formed(p@),
    {
        let p = Project {
            id: id.to_owned(),
            revision: 0,
            tempo: DEFAULT_TEMPO_BITS,
            tracks: Vec::new(),
        };
        assert(p@.tracks =~= Seq::<TrackView>::empty());
        p
    }
}

/// The id of a project that is created because none exists yet.
pub const DEFAULT_PROJECT_ID: &'static str = "local-project";

/// The project to work on: the one that was loaded, or a new project named
/// `local-project` when there was none to load.
pub fn project_or_new(existing: Option<Project>) -> (p: Project)
    ensures
        match existing {
            Some(q) => p@ == q@,
            None => p@.id == "local-project"@ && p@.revision == 0 && p@.tempo == DEFAULT_TEMPO_BITS
                && p@.tracks == Seq::<TrackView>::empty(),
        },
{
    match existing {
        Some(q) => q,
        None => Project::new(DEFAULT_PROJECT_ID),
    }
}

impl Command {
    /// Checks the command-local invariants.
    pub fn validate(&self) -> (r: Result<(), CommandError>)
        ensures
            r == validate_spec(self@),
    {
        match self {
            Command::SetTempo { bpm } => {
                if MIN_TEMPO_BITS <= *bpm && *bpm <= MAX_TEMPO_BITS {
                    Ok(())
                } else {
                    Err(CommandError::TempoOutOfRange)
                }
            },
            Command::CreateTrack { id, name } => {
                if str_is_blank(name.as_str()) {
                    Err(CommandError::EmptyTrackName)
                } else {
                    Ok(())
                }
            },
            Command::DeleteTrack { id } => Ok(()),
        }
    }
}

/// Finds the first track with the given id.
fn find_track(tracks: &Vec<Track>, id: EntityId) -> (r: Option<usize>)
    ensures
        match track_position(tracks@.map_values(|t: Track| t@), id) {
            Some(k) => r matches Some(i) && i == k,
            None => r is None,
        },
{
    let ghost v = tracks@.map_values(|t: Track| t@);
    let mut i: usize = 0;
    while i < tracks.len()
        invariant
            i <= tracks@.len(),
            v == tracks@.map_values(|t: Track| t@),
            position_from(v, id, 0) == position_from(v, id, i as int),
        decreases tracks.len() - i,
    {
        if tracks[i].id == id {
            return Some(i);
        }
        i += 1;
    }
    None
}

/// Applies one command to the project and returns the command that reverts it.
pub(crate) fn apply_command(project: &mut Project, command: &Command) -> (r: Result<Command, CommandError>)
    ensures
        match apply_spec(old(project)@, command@) {
            Ok((p, inverse)) => r matches Ok(c) && c@ == inverse && final(project)@ == p,
            Err(e) => r == Err::<Command, CommandError>(e) && final(project)@ == old(project)@,
        },
{
    match command.validate() {
        Err(e) => return Err(e),
        Ok(()) => {},
    }
    let ghost v = project@;
    let inverse = match command {
        Command::SetTempo { bpm } => {
            let previous = project.tempo;
            project.tempo = *bpm;
            Command::SetTempo { bpm: previous }
        },
        Command::CreateTrack { id, name } => {
            match find_track(&project.tracks, *id) {
                Some(_) => return Err(CommandError::TrackAlreadyExists),
                None => {},
            }
            project.tracks.push(Track { id: *id, name: name.clone() });
            assert(project@.tracks =~= v.tracks.push(TrackView { id: *id, name: name@ }));
            Command::DeleteTrack { id: *id }
        },
        Command::DeleteTrack { id } => {
            let index = match find_track(&project.tracks, *id) {
                Some(k) => k,
                None => return Err(CommandError::TrackNotFound),
            };
            proof {
                lemma_position_from(v.tracks, *id, 0);
            }
            let ghost before = project.tracks@;
            let track = project.tracks.remove(index);
            assert(track@ == v.tracks[index as int]);
            assert(project@.tracks =~= v.tracks.remove(index as int));
            Command::CreateTrack { id: track.id, name: track.name }
        },
    };
    project.revision = project.revision.saturating_add(1);
    Ok(inverse)
}

} // verus!

verus! {

/// No two tracks share an id.
pub open spec fn unique_ids(tracks: Seq<TrackView>) -> bool {
    forall|i: int, j: int|
        0 <= i < tracks.len() && 0 <= j < tracks.len() && i != j ==> #[trigger] tracks[i].id
            != #[trigger] tracks[j].id
}

/// A project that the commands keep consistent: its tempo is in range,
/// its track ids are distinct and no track name is blank.
pub open spec fn well_formed(p: ProjectView) -> bool {
    &&& tempo_in_range(p.tempo)
    &&& unique_ids(p.tracks)
    &&& forall|i: int| 0 <= i < p.tracks.len() ==> !is_blank(#[trigger] p.tracks[i].name)
}

/// Whether the command that a successful `c` returns can be applied back:
/// the current tempo must lie in range for a tempo change, and the track
/// that a deletion removes must have a name that is not blank and no other
/// track may share its id. Every command is invertible on a well-formed
/// project.
pub open spec fn invertible(p: ProjectView, c: CommandView) -> bool {
    match c {
        CommandView::SetTempo { bpm } => tempo_in_range(p.tempo),
        CommandView::CreateTrack { id, name } => true,
        CommandView::DeleteTrack { id } => match track_position(p.tracks, id) {
            Some(k) => !is_blank(p.tracks[k].name) && position_from(p.tracks, id, k + 1) is None,
            None => true,
        },
    }
}

/// Every command is invertible on a well-formed project.
pub proof fn lemma_well_formed_invertible(p: ProjectView, c: CommandView)
    requires
        well_formed(p),
    ensures
        invertible(p, c),
{
    if let CommandView::DeleteTrack { id } = c {
        lemma_position_from(p.tracks, id, 0);
        if let Some(k) = track_position(p.tracks, id) {
            lemma_position_from(p.tracks, id, k + 1);
            if let Some(m) = position_from(p.tracks, id, k + 1) {
                assert(p.tracks[m].id == p.tracks[k].id);
            }
        }
    }
}

/// Every command that succeeds keeps a project well formed.
pub proof fn lemma_apply_keeps_well_formed(p: ProjectView, c: CommandView)
    requires
        well_formed(p),
        apply_spec(p, c) is Ok,
    ensures
        well_formed(apply_spec(p, c)->Ok_0.0),
{
    match c {
        CommandView::CreateTrack { id, name } => {
            lemma_position_from(p.tracks, id, 0);
            let t = p.tracks.push(TrackView { id, name });
            assert forall|i: int, j: int|
                0 <= i < t.len() && 0 <= j < t.len() && i != j implies #[trigger] t[i].id
                != #[trigger] t[j].id by {
                if i < p.tracks.len() && j < p.tracks.len() {
                    assert(p.tracks[i].id != p.tracks[j].id);
                }
            }
        },
        CommandView::DeleteTrack { id } => {
            lemma_position_from(p.tracks, id, 0);
            let k = track_position(p.tracks, id)->Some_0;
            let t = p.tracks.remove(k);
            assert forall|i: int, j: int|
                0 <= i < t.len() && 0 <= j < t.len() && i != j implies #[trigger] t[i].id
                != #[trigger] t[j].id by {
                let a = if i < k { i } else { i + 1 };
                let b = if j < k { j } else { j + 1 };
                assert(t[i] == p.tracks[a]);
                assert(t[j] == p.tracks[b]);
            }
            assert forall|i: int| 0 <= i < t.len() implies !is_blank(#[trigger] t[i].name) by {
                let a = if i < k { i } else { i + 1 };
                assert(t[i] == p.tracks[a]);
            }
        },
        CommandView::SetTempo { bpm } => {},
    }
}

/// The command that a successful edit returns reverts it, whenever it can
/// be applied back (always, on a well-formed project): applying it
/// succeeds, returns the edit's own command, and restores the id, the tempo
/// and the tracks (a deleted track comes back at the end of the list, so the
/// tracks are restored as a multiset, and exactly unless the edit was a
/// deletion); the revision moves on by one.
pub proof fn lemma_inverse_reverts(p: ProjectView, c: CommandView)
    requires
        invertible(p, c),
        apply_spec(p, c) is Ok,
    ensures
        ({
            let (p1, inverse) = apply_spec(p, c)->Ok_0;
            &&& apply_spec(p1, inverse) is Ok
            &&& apply_spec(p1, inverse)->Ok_0.1 == c
            &&& apply_spec(p1, inverse)->Ok_0.0.id == p.id
            &&& apply_spec(p1, inverse)->Ok_0.0.tempo == p.tempo
            &&& apply_spec(p1, inverse)->Ok_0.0.revision == next_revision(p1.revision)
            &&& apply_spec(p1, inverse)->Ok_0.0.tracks.to_multiset() == p.tracks.to_multiset()
            &&& !(c is DeleteTrack) ==> apply_spec(p1, inverse)->Ok_0.0.tracks == p.tracks
        }),
{
    broadcast use vstd::seq_lib::to_multiset_build, vstd::seq_lib::to_multiset_remove;

    let (p1, inverse) = apply_spec(p, c)->Ok_0;
    match c {
        CommandView::SetTempo { bpm } => {},
        CommandView::CreateTrack { id, name } => {
            lemma_position_from(p.tracks, id, 0);
            lemma_position_from(p1.tracks, id, 0);
            let n = p.tracks.len() as int;
            assert(p1.tracks[n].id == id);
            assert forall|j: int| 0 <= j < n implies #[trigger] p1.tracks[j].id != id by {
                assert(p1.tracks[j] == p.tracks[j]);
            }
            assert(track_position(p1.tracks, id) == Some(n));
            assert(p1.tracks.remove(n) =~= p.tracks);
        },
        CommandView::DeleteTrack { id } => {
            lemma_position_from(p.tracks, id, 0);
            let k = track_position(p.tracks, id)->Some_0;
            let t = p.tracks[k];
            lemma_position_from(p.tracks, id, k + 1);
            lemma_position_from(p1.tracks, id, 0);
            assert forall|j: int| 0 <= j < p1.tracks.len() implies #[trigger] p1.tracks[j].id
                != id by {
                let a = if j < k { j } else { j + 1 };
                assert(p1.tracks[j] == p.tracks[a]);
                assert(p.tracks[a].id != id);
            }
            assert(!is_blank(t.name));
            broadcast use vstd::seq_lib::to_multiset_contains, vstd::multiset::group_multiset_axioms;
            assert(p.tracks.contains(t));
            assert(p.tracks.to_multiset().count(t) > 0);
            assert(p1.tracks.push(t).to_multiset() == p1.tracks.to_multiset().insert(t));
            assert(p1.tracks.to_multiset() == p.tracks.to_multiset().remove(t));
            assert(p1.tracks.push(t).to_multiset() =~= p.tracks.to_multiset());
        },
    }
}

/// Reapplying a command after its inverse gives back the edited
/// project (up to the revision), and the same inverse command, whenever the
/// inverse can be applied.
pub proof fn lemma_reapply_restores(p: ProjectView, c: CommandView)
    requires
        invertible(p, c),
        apply_spec(p, c) is Ok,
    ensures
        ({
            let (p1, inverse) = apply_spec(p, c)->Ok_0;
            let p2 = apply_spec(p1, inverse)->Ok_0.0;
            &&& apply_spec(p2, c) is Ok
            &&& apply_spec(p2, c)->Ok_0.1 == inverse
            &&& apply_spec(p2, c)->Ok_0.0.id == p1.id
            &&& apply_spec(p2, c)->Ok_0.0.tempo == p1.tempo
            &&& apply_spec(p2, c)->Ok_0.0.tracks == p1.tracks
        }),
{
    lemma_inverse_reverts(p, c);
    let (p1, inverse) = apply_spec(p, c)->Ok_0;
    let p2 = apply_spec(p1, inverse)->Ok_0.0;
    match c {
        CommandView::SetTempo { bpm } => {},
        CommandView::CreateTrack { id, name } => {
            lemma_position_from(p.tracks, id, 0);
            assert(p2.tracks == p.tracks);
        },
        CommandView::DeleteTrack { id } => {
            lemma_position_from(p.tracks, id, 0);
            let k = track_position(p.tracks, id)->Some_0;
            let t = p.tracks[k];
            let n = p1.tracks.len() as int;
            lemma_position_from(p.tracks, id, k + 1);
            lemma_position_from(p1.tracks, id, 0);
            assert forall|j: int| 0 <= j < p1.tracks.len() implies #[trigger] p1.tracks[j].id
                != id by {
                let a = if j < k { j } else { j + 1 };
                assert(p1.tracks[j] == p.tracks[a]);
                assert(p.tracks[a].id != id);
            }
            assert(p2.tracks == p1.tracks.push(t));
            lemma_position_from(p2.tracks, id, 0);
            assert forall|j: int| 0 <= j < n implies #[trigger] p2.tracks[j].id != id by {
                assert(p2.tracks[j] == p1.tracks[j]);
            }
            assert(p2.tracks[n].id == id);
            assert(track_position(p2.tracks, id) == Some(n));
            assert(p2.tracks.remove(n) =~= p1.tracks);
        },
    }
}


/// Creating a track appends it: when the name is not blank and no track has
/// the id, the new track list is the old one followed by the new track, the
/// revision moves on by one, the id and tempo stay, and the command that
/// reverts it deletes that id. A blank name is refused with `EmptyTrackName`,
/// and an id that is taken with `TrackAlreadyExists`.
pub proof fn lemma_create_appends(p: ProjectView, id: EntityId, name: Seq<char>)
    ensures
        ({
            let r = apply_spec(p, CommandView::CreateTrack { id, name });
            if is_blank(name) {
                r == Err::<(ProjectView, CommandView), CommandError>(CommandError::EmptyTrackName)
            } else if exists|j: int| 0 <= j < p.tracks.len() && #[trigger] p.tracks[j].id == id {
                r == Err::<(ProjectView, CommandView), CommandError>(CommandError::TrackAlreadyExists)
            } else {
                &&& r is Ok
                &&& r->Ok_0.0.tracks.len() == p.tracks.len() + 1
                &&& r->Ok_0.0.tracks.subrange(0, p.tracks.len() as int) == p.tracks
                &&& r->Ok_0.0.tracks[p.tracks.len() as int] == TrackView { id, name }
                &&& r->Ok_0.0.id == p.id
                &&& r->Ok_0.0.tempo == p.tempo
                &&& r->Ok_0.0.revision == next_revision(p.revision)
                &&& r->Ok_0.1 == CommandView::DeleteTrack { id }
            }
        }),
{
    lemma_position_from(p.tracks, id, 0);
    if !is_blank(name) {
        if let Some(k) = track_position(p.tracks, id) {
            assert(p.tracks[k].id == id);
        } else {
            let t = p.tracks.push(TrackView { id, name });
            assert(t.subrange(0, p.tracks.len() as int) =~= p.tracks);
        }
    }
}

/// Deleting a track removes exactly the first track with the id and keeps
/// the order of the others: the new list is the tracks before that position
/// followed by the tracks after it. The revision moves on by one, the id and
/// tempo stay, and the command that reverts it recreates that track. With no
/// track of that id the deletion is refused with `TrackNotFound`.
pub proof fn lemma_delete_removes_first(p: ProjectView, id: EntityId)
    ensures
        ({
            let r = apply_spec(p, CommandView::DeleteTrack { id });
            if exists|j: int| 0 <= j < p.tracks.len() && #[trigger] p.tracks[j].id == id {
                exists|k: int|
                    {
                        &&& 0 <= k < p.tracks.len()
                        &&& #[trigger] p.tracks[k].id == id
                        &&& forall|j: int| 0 <= j < k ==> #[trigger] p.tracks[j].id != id
                        &&& r is Ok
                        &&& r->Ok_0.0.tracks == p.tracks.subrange(0, k) + p.tracks.subrange(
                            k + 1,
                            p.tracks.len() as int,
                        )
                        &&& r->Ok_0.0.id == p.id
                        &&& r->Ok_0.0.tempo == p.tempo
                        &&& r->Ok_0.0.revision == next_revision(p.revision)
                        &&& r->Ok_0.1 == CommandView::CreateTrack { id, name: p.tracks[k].name }
                    }
            } else {
                r == Err::<(ProjectView, CommandView), CommandError>(CommandError::TrackNotFound)
            }
        }),
{
    lemma_position_from(p.tracks, id, 0);
    if let Some(k) = track_position(p.tracks, id) {
        assert(p.tracks.remove(k) =~= p.tracks.subrange(0, k) + p.tracks.subrange(
            k + 1,
            p.tracks.len() as int,
        ));
        assert(p.tracks[k].id == id);
    }
}

} // verus!
