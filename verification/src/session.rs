//! An editing session: a project with its undo and redo histories.
use vstd::prelude::*;
use vstd::string::StringExecFns;

use crate::project::{
    apply_command, apply_spec, lemma_apply_keeps_well_formed, lemma_inverse_reverts,
    lemma_reapply_restores, invertible, next_revision, well_formed, Command, CommandError, CommandView, Project,
    ProjectView, track_position,
};
use crate::text::{is_blank, is_space};

verus! {

/// A project under edit, with the commands that revert past edits (`undo`)
/// and the commands that reapply reverted edits (`redo`); the latest is last.
pub struct ProjectSession {
    project: Project,
    undo: Vec<Command>,
    redo: Vec<Command>,
}

/// Abstract value of a session.
pub struct SessionView {
    pub project: ProjectView,
    pub undo: Seq<CommandView>,
    pub redo: Seq<CommandView>,
}

impl View for ProjectSession {
    type V = SessionView;

    closed spec fn view(&self) -> SessionView {
        SessionView {
            project: self.project@,
            undo: self.undo@.map_values(|c: Command| c@),
            redo: self.redo@.map_values(|c: Command| c@),
        }
    }
}

/// Applying a command records its inverse for undo and forgets the redo
/// history; a refused command changes nothing.
pub open spec fn session_apply(s: SessionView, c: CommandView) -> (SessionView, Result<(), CommandError>) {
    match apply_spec(s.project, c) {
        Ok((p, inverse)) => (SessionView { project: p, undo: s.undo.push(inverse), redo: Seq::empty() }, Ok(())),
        Err(e) => (s, Err(e)),
    }
}

/// Undo takes the latest inverse command and applies it, recording its own
/// inverse for redo. A refused inverse is dropped from the history.
pub open spec fn session_undo(s: SessionView) -> (SessionView, Result<(), CommandError>) {
    if s.undo.len() == 0 {
        (s, Err(CommandError::NothingToUndo))
    } else {
        match apply_spec(s.project, s.undo.last()) {
            Ok((p, inverse)) => (
                SessionView { project: p, undo: s.undo.drop_last(), redo: s.redo.push(inverse) },
                Ok(()),
            ),
            Err(e) => (SessionView { undo: s.undo.drop_last(), ..s }, Err(e)),
        }
    }
}

/// Redo takes the latest reverted command and applies it again, recording
/// its inverse for undo. A refused command is dropped from the history.
pub open spec fn session_redo(s: SessionView) -> (SessionView, Result<(), CommandError>) {
    if s.redo.len() == 0 {
        (s, Err(CommandError::NothingToRedo))
    } else {
        match apply_spec(s.project, s.redo.last()) {
            Ok((p, inverse)) => (
                SessionView { project: p, undo: s.undo.push(inverse), redo: s.redo.drop_last() },
                Ok(()),
            ),
            Err(e) => (SessionView { redo: s.redo.drop_last(), ..s }, Err(e)),
        }
    }
}

impl ProjectSession {
    /// A session on `project` with empty histories.
    pub fn new(project: Project) -> (s: ProjectSession)
        ensures
            s@.project == project@,
            s@.undo == Seq::<CommandView>::empty(),
            s@.redo == Seq::<CommandView>::empty(),
    {
        let s = ProjectSession { project, undo: Vec::new(), redo: Vec::new() };
        assert(s@.undo =~= Seq::<CommandView>::empty());
        assert(s@.redo =~= Seq::<CommandView>::empty());
        s
    }

    /// The project in its current state.
    pub fn project(&self) -> (p: &Project)
        ensures
            p@ == self@.project,
    {
        &self.project
    }

    /// Applies one validated command and records its inverse.
    pub fn apply(&mut self, command: &Command) -> (r: Result<(), CommandError>)
        ensures
            session_apply(old(self)@, command@) == (final(self)@, r),
    {
        let inverse = match apply_command(&mut self.project, command) {
            Ok(c) => c,
            Err(e) => return Err(e),
        };
        let ghost undo0 = self.undo@;
        self.undo.push(inverse);
        self.redo.clear();
        assert(self@.undo =~= old(self)@.undo.push(inverse@));
        assert(self@.redo =~= Seq::<CommandView>::empty());
        Ok(())
    }

    /// Reverts the latest command.
    pub fn undo(&mut self) -> (r: Result<(), CommandError>)
        ensures
            session_undo(old(self)@) == (final(self)@, r),
    {
        let ghost undo0 = self.undo@;
        let command = match self.undo.pop() {
            Some(c) => c,
            None => return Err(CommandError::NothingToUndo),
        };
        assert(self@.undo =~= old(self)@.undo.drop_last());
        let inverse = match apply_command(&mut self.project, &command) {
            Ok(c) => c,
            Err(e) => return Err(e),
        };
        self.redo.push(inverse);
        assert(self@.redo =~= old(self)@.redo.push(inverse@));
        Ok(())
    }

    /// Reapplies the latest reverted command.
    pub fn redo(&mut self) -> (r: Result<(), CommandError>)
        ensures
            session_redo(old(self)@) == (final(self)@, r),
    {
        let command = match self.redo.pop() {
            Some(c) => c,
            None => return Err(CommandError::NothingToRedo),
        };
        assert(self@.redo =~= old(self)@.redo.drop_last());
        let inverse = match apply_command(&mut self.project, &command) {
            Ok(c) => c,
            Err(e) => return Err(e),
        };
        self.undo.push(inverse);
        assert(self@.undo =~= old(self)@.undo.push(inverse@));
        Ok(())
    }
}

/// The id of the track that a project without tracks is given.
pub const FIRST_TRACK_ID: u128 = 1;

/// The name of the track that a project without tracks is given.
pub const FIRST_TRACK_NAME: &'static str = "Audio 1";

/// A project without tracks gets its first audio track, as an ordinary
/// command (so it can be undone); a project with tracks is left as it is.
pub fn with_first_track(session: &mut ProjectSession) -> (r: Result<(), CommandError>)
    ensures
        old(session)@.project.tracks.len() > 0 ==> final(session)@ == old(session)@ && r is Ok,
        old(session)@.project.tracks.len() == 0 ==> (final(session)@, r) == session_apply(
            old(session)@,
            CommandView::CreateTrack { id: 1, name: "Audio 1"@ },
        ),
        old(session)@.project.tracks.len() == 0 ==> r is Ok,
{
    if session.project().tracks.len() > 0 {
        return Ok(());
    }
    let name = String::from_str(FIRST_TRACK_NAME);
    proof {
        reveal_strlit("Audio 1");
        let c = CommandView::CreateTrack { id: 1, name: "Audio 1"@ };
        assert(!is_blank("Audio 1"@)) by {
            assert(!is_space("Audio 1"@[0]));
        }
        assert(track_position(session@.project.tracks, 1) is None);
    }
    session.apply(&Command::CreateTrack { id: FIRST_TRACK_ID, name })
}

/// Every session operation, successful or not, keeps the project well formed.
pub proof fn lemma_session_keeps_well_formed(s: SessionView, c: CommandView)
    requires
        well_formed(s.project),
    ensures
        well_formed(session_apply(s, c).0.project),
        well_formed(session_undo(s).0.project),
        well_formed(session_redo(s).0.project),
{
    if apply_spec(s.project, c) is Ok {
        lemma_apply_keeps_well_formed(s.project, c);
    }
    if s.undo.len() > 0 && apply_spec(s.project, s.undo.last()) is Ok {
        lemma_apply_keeps_well_formed(s.project, s.undo.last());
    }
    if s.redo.len() > 0 && apply_spec(s.project, s.redo.last()) is Ok {
        lemma_apply_keeps_well_formed(s.project, s.redo.last());
    }
}

/// Undo right after a successful command succeeds whenever the command's
/// inverse can be applied (always, on a well-formed project): it restores the project's id, tempo and tracks (a deleted track returns at
/// the end of the list), leaves the undo history as it was before the command
/// and offers the command for redo. Redo then succeeds and returns the session
/// to the state right after the command, revisions aside.
pub proof fn lemma_undo_then_redo(s: SessionView, c: CommandView)
    requires
        invertible(s.project, c),
        session_apply(s, c).1 is Ok,
    ensures
        ({
            let s1 = session_apply(s, c).0;
            let (s2, r2) = session_undo(s1);
            let (s3, r3) = session_redo(s2);
            &&& r2 is Ok
            &&& s2.undo == s.undo
            &&& s2.redo == seq![c]
            &&& s2.project.id == s.project.id
            &&& s2.project.tempo == s.project.tempo
            &&& s2.project.tracks.to_multiset() == s.project.tracks.to_multiset()
            &&& !(c is DeleteTrack) ==> s2.project.tracks == s.project.tracks
            &&& s2.project.revision == next_revision(s1.project.revision)
            &&& r3 is Ok
            &&& s3.undo == s1.undo
            &&& s3.redo == s1.redo
            &&& s3.project.id == s1.project.id
            &&& s3.project.tempo == s1.project.tempo
            &&& s3.project.tracks == s1.project.tracks
            &&& s3.project.revision == next_revision(s2.project.revision)
        }),
{
    lemma_inverse_reverts(s.project, c);
    lemma_reapply_restores(s.project, c);
    let s1 = session_apply(s, c).0;
    let s2 = session_undo(s1).0;
    assert(s1.undo.drop_last() =~= s.undo);
    assert(s2.redo =~= seq![c]);
    assert(s2.redo.last() == c);
    assert(s2.redo.drop_last() =~= Seq::<CommandView>::empty());
}


/// Redo reapplies the most recently undone command, whatever lies below it
/// in the redo history: right after a successful undo whose inverse can be
/// applied back, redo succeeds, gives the project back its id, tempo and
/// tracks (as a multiset, and exactly unless the undone command was a
/// deletion, which puts the track back at the end), and leaves both
/// histories as they were before the undo.
pub proof fn lemma_redo_after_undo(s: SessionView)
    requires
        s.undo.len() > 0,
        session_undo(s).1 is Ok,
        invertible(s.project, s.undo.last()),
    ensures
        ({
            let s2 = session_undo(s).0;
            let (s3, r3) = session_redo(s2);
            &&& r3 is Ok
            &&& s3.undo == s.undo
            &&& s3.redo == s.redo
            &&& s3.project.id == s.project.id
            &&& s3.project.tempo == s.project.tempo
            &&& s3.project.tracks.to_multiset() == s.project.tracks.to_multiset()
            &&& !(s.undo.last() is DeleteTrack) ==> s3.project.tracks == s.project.tracks
        }),
{
    let u = s.undo.last();
    lemma_inverse_reverts(s.project, u);
    let s2 = session_undo(s).0;
    assert(s2.redo.last() == apply_spec(s.project, u)->Ok_0.1);
    assert(s2.redo.drop_last() =~= s.redo);
    assert(s2.undo.push(u) =~= s.undo);
}

} // verus!
