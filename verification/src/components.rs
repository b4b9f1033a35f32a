//! The component types without floating-point data, and the state machines
//! that drive character and two-state animations.
use crate::ecs::{ComponentKind, EntityId};
use crate::math::{PixelUnits, Rect, Vec2};
use crate::script::{opt_view, script_cut_ok, script_from_file_contents, script_in_file_spec};
use crate::text::str_eq;
use std::marker::PhantomData;
use std::time::Duration;
use vstd::prelude::*;
use vstd::string::*;

verus! {

/// A type that can be attached to entities; each has its own kind.
pub trait Component {
    /// The kind of this component type.
    spec fn kind_spec() -> ComponentKind;

    /// The kind of this component type.
    fn kind() -> (k: ComponentKind)
        ensures
            k == Self::kind_spec(),
    ;
}

/// A query element asking that the entity carries a `C`, without borrowing it.
pub struct With<C: Component>(pub PhantomData<C>);

impl<C: Component> With<C> {
    pub fn term() -> (t: crate::ecs::QueryTerm)
        ensures
            t == crate::ecs::QueryTerm::With(C::kind_spec()),
    {
        crate::ecs::QueryTerm::With(C::kind())
    }
}

/// A query element asking that the entity does not carry a `C`.
pub struct Without<C: Component>(pub PhantomData<C>);

impl<C: Component> Without<C> {
    pub fn term() -> (t: crate::ecs::QueryTerm)
        ensures
            t == crate::ecs::QueryTerm::Without(C::kind_spec()),
    {
        crate::ecs::QueryTerm::Without(C::kind())
    }
}

/// The four directions an entity can face or walk.
#[derive(Clone, Copy, PartialEq, Eq, Structural, Debug)]
pub enum Direction {
    Up,
    Down,
    Left,
    Right,
}

impl Default for Direction {
    fn default() -> (d: Direction)
        ensures
            d == Direction::Down,
    {
        Direction::Down
    }
}

/// The direction a script names (`"up"`, `"down"`, `"left"`, `"right"`).
pub open spec fn direction_named(s: Seq<char>) -> Option<Direction> {
    if s == "up"@ {
        Some(Direction::Up)
    } else if s == "down"@ {
        Some(Direction::Down)
    } else if s == "left"@ {
        Some(Direction::Left)
    } else if s == "right"@ {
        Some(Direction::Right)
    } else {
        None
    }
}

/// Reads a direction as scripts write it; `None` for any other word.
pub fn parse_direction(s: &str) -> (d: Option<Direction>)
    ensures
        d == direction_named(s@),
{
    if str_eq(s, "up") {
        Some(Direction::Up)
    } else if str_eq(s, "down") {
        Some(Direction::Down)
    } else if str_eq(s, "left") {
        Some(Direction::Left)
    } else if str_eq(s, "right") {
        Some(Direction::Right)
    } else {
        None
    }
}

/// A unique, immutable name by which scripts and data refer to an entity.
#[derive(Clone, Debug)]
pub struct Name(pub String);

impl Component for Name {
    open spec fn kind_spec() -> ComponentKind {
        ComponentKind::Name
    }

    fn kind() -> (k: ComponentKind) {
        ComponentKind::Name
    }
}

/// The direction an entity faces.
#[derive(Clone, Copy, Debug)]
pub struct Facing(pub Direction);

impl Component for Facing {
    open spec fn kind_spec() -> ComponentKind {
        ComponentKind::Facing
    }

    fn kind() -> (k: ComponentKind) {
        ComponentKind::Facing
    }
}

/// Where a script's source comes from.
#[derive(Clone, Debug)]
pub enum ScriptSource {
    /// A file, or one named script inside it.
    File { filepath: String, name_in_file: Option<String> },
    /// The source text itself.
    String(String),
}

/// A rectangle of a sprite sheet drawn with its anchor at the entity's
/// position.
#[derive(Clone, Debug)]
pub struct Sprite {
    pub spritesheet: String,
    pub rect: Rect<u32, PixelUnits>,
    pub anchor: Vec2<i32, PixelUnits>,
}

/// How an entity is drawn: its current sprite, a sprite that overrides it,
/// and whether it is drawn at all.
#[derive(Clone, Debug)]
pub struct SpriteComp {
    pub sprite: Option<Sprite>,
    pub forced_sprite: Option<Sprite>,
    pub visible: bool,
}

impl Default for SpriteComp {
    fn default() -> (s: SpriteComp)
        ensures
            s.sprite is None,
            s.forced_sprite is None,
            s.visible,
    {
        SpriteComp { sprite: None, forced_sprite: None, visible: true }
    }
}

impl Component for SpriteComp {
    open spec fn kind_spec() -> ComponentKind {
        ComponentKind::SpriteComp
    }

    fn kind() -> (k: ComponentKind) {
        ComponentKind::SpriteComp
    }
}

/// The source a script source stands for, given the contents of its file
/// (for a `String` source the contents are not read).
pub open spec fn source_spec(src: ScriptSource, file_contents: Seq<char>) -> Option<Seq<char>> {
    match src {
        ScriptSource::File { filepath: _, name_in_file: Some(name) } => script_in_file_spec(file_contents, name@),
        ScriptSource::File { filepath: _, name_in_file: None } => Some(file_contents),
        ScriptSource::String(s) => Some(s@),
    }
}

impl ScriptSource {
    /// The script's source: the named script in the file's contents (`None`
    /// if the file has no such script), the whole file, or the text itself.
    pub fn get_source(&self, file_contents: &str) -> (r: Option<String>)
        requires
            self matches ScriptSource::File { filepath: _, name_in_file: Some(name) } ==> script_cut_ok(file_contents@, name@),
        ensures
            opt_view(r) == source_spec(*self, file_contents@),
    {
        match self {
            ScriptSource::File { filepath: _, name_in_file: Some(name) } => script_from_file_contents(file_contents, name.as_str()),
            ScriptSource::File { filepath: _, name_in_file: None } => Some(String::from_str(file_contents)),
            ScriptSource::String(s) => Some(s.clone()),
        }
    }
}

/// A script started when the player collides with the entity.
#[derive(Clone, Debug)]
pub struct CollisionTrigger {
    pub script_source: ScriptSource,
}

impl Component for CollisionTrigger {
    open spec fn kind_spec() -> ComponentKind {
        ComponentKind::CollisionTrigger
    }

    fn kind() -> (k: ComponentKind) {
        ComponentKind::CollisionTrigger
    }
}

/// Text drawn above the entity.
#[derive(Clone, Debug)]
pub struct OverheadText {
    pub text: String,
}

impl Component for OverheadText {
    open spec fn kind_spec() -> ComponentKind {
        ComponentKind::OverheadText
    }

    fn kind() -> (k: ComponentKind) {
        ComponentKind::OverheadText
    }
}

/// The words an entity sings, each with its pitch.
#[derive(Clone, Debug)]
pub struct Singing {
    pub words: Vec<(String, i32)>,
}

impl Component for Singing {
    open spec fn kind_spec() -> ComponentKind {
        ComponentKind::Singing
    }

    fn kind() -> (k: ComponentKind) {
        ComponentKind::Singing
    }
}

impl Singing {
    /// Appends a word (what the `sing_word` script command does).
    pub fn sing_word(&mut self, word: String, pitch: i32)
        ensures
            final(self).words@ == old(self).words@.push((word, pitch)),
    {
        self.words.push((word, pitch));
    }

    /// Forgets every word (the `clear_singing` script command).
    pub fn clear(&mut self)
        ensures
            final(self).words@.len() == 0,
    {
        self.words.clear();
    }
}

/// Whether an animation clip is advancing.
#[derive(Clone, Copy, PartialEq, Eq, Structural, Debug)]
pub enum PlaybackState {
    Playing,
    Paused,
    Stopped,
}

impl Default for PlaybackState {
    fn default() -> (p: PlaybackState)
        ensures
            p == PlaybackState::Stopped,
    {
        PlaybackState::Stopped
    }
}

/// The playback of an entity's animation clip: whether it plays, whether it
/// loops, and whether a script forced it (a forced clip is left alone by the
/// walking and two-state animation updates until it stops). The clip and the
/// time played hold floating-point values and are kept beside it.
#[derive(Clone, Copy, Debug, PartialEq, Eq, Structural)]
pub struct AnimationComp {
    pub state: PlaybackState,
    pub repeat: bool,
    pub forced: bool,
}

impl AnimationComp {
    /// A stopped, non-looping, unforced playback.
    pub fn new() -> (a: AnimationComp)
        ensures
            a.state == PlaybackState::Stopped,
            !a.repeat,
            !a.forced,
    {
        AnimationComp { state: PlaybackState::Stopped, repeat: false, forced: false }
    }

    /// Starts playing from the beginning, looping or not (the time played is
    /// reset beside it).
    pub fn start(&mut self, repeat: bool)
        ensures
            final(self).state == PlaybackState::Playing,
            final(self).repeat == repeat,
            final(self).forced == old(self).forced,
    {
        self.state = PlaybackState::Playing;
        self.repeat = repeat;
    }

    /// Pauses; the rest is kept.
    pub fn pause(&mut self)
        ensures
            final(self).state == PlaybackState::Paused,
            final(self).repeat == old(self).repeat,
            final(self).forced == old(self).forced,
    {
        self.state = PlaybackState::Paused;
    }

    /// Plays on from where it was; the rest is kept.
    pub fn resume(&mut self)
        ensures
            final(self).state == PlaybackState::Playing,
            final(self).repeat == old(self).repeat,
            final(self).forced == old(self).forced,
    {
        self.state = PlaybackState::Playing;
    }

    /// Stops, and releases a forced clip.
    pub fn stop(&mut self)
        ensures
            final(self).state == PlaybackState::Stopped,
            final(self).repeat == old(self).repeat,
            !final(self).forced,
    {
        self.state = PlaybackState::Stopped;
        self.forced = false;
    }
}

/// The four phases of an animation with two resting states and a transition
/// each way.
#[derive(Clone, Copy, PartialEq, Eq, Structural, Debug)]
pub enum DualStateAnimationState {
    First,
    FirstToSecond,
    Second,
    SecondToFirst,
}

/// The walking animation a character shows.
#[derive(Clone, Copy, PartialEq, Eq, Structural, Debug)]
pub enum CharacterAnimationState {
    WalkLeft,
    WalkRight,
    WalkUp,
    WalkDown,
}

/// What a frame does to a two-state animation that is not forced: a finished
/// transition moves to the resting state it leads to and restarts looping;
/// otherwise nothing changes.
pub open spec fn dual_state_step(state: DualStateAnimationState, playback: PlaybackState) -> (DualStateAnimationState, bool) {
    match (state, playback) {
        (DualStateAnimationState::FirstToSecond, PlaybackState::Stopped) => (DualStateAnimationState::Second, true),
        (DualStateAnimationState::SecondToFirst, PlaybackState::Stopped) => (DualStateAnimationState::First, true),
        _ => (state, false),
    }
}

/// The next phase of a two-state animation, and whether its clip restarts
/// (looping).
pub fn next_dual_state(state: DualStateAnimationState, playback: PlaybackState) -> (r: (DualStateAnimationState, bool))
    ensures
        r == dual_state_step(state, playback),
{
    match (state, playback) {
        (DualStateAnimationState::FirstToSecond, PlaybackState::Stopped) => (DualStateAnimationState::Second, true),
        (DualStateAnimationState::SecondToFirst, PlaybackState::Stopped) => (DualStateAnimationState::First, true),
        _ => (state, false),
    }
}

/// The transition a script asks for with `switch_dual_state_animation`:
/// 1 goes back to the first state, 2 on to the second; other values are
/// refused.
pub fn dual_state_switch(state: i32) -> (r: Option<DualStateAnimationState>)
    ensures
        state == 1 ==> r == Some(DualStateAnimationState::SecondToFirst),
        state == 2 ==> r == Some(DualStateAnimationState::FirstToSecond),
        state != 1 && state != 2 ==> r is None,
{
    if state == 1 {
        Some(DualStateAnimationState::SecondToFirst)
    } else if state == 2 {
        Some(DualStateAnimationState::FirstToSecond)
    } else {
        None
    }
}

/// What a frame does to the playback of a walking character's animation.
#[derive(Clone, Copy, PartialEq, Eq, Structural, Debug)]
pub enum PlaybackAction {
    /// Start the clip from its first frame, looping.
    StartLooping,
    /// Stop the clip (and release a forced clip).
    Stop,
    /// Leave the playback as it is.
    Keep,
}

/// The playback change for a character that is (or is not) moving: a
/// stopped clip starts when it moves, any clip stops when it stands still.
pub fn character_playback(moving: bool, playback: PlaybackState) -> (a: PlaybackAction)
    ensures
        moving && playback == PlaybackState::Stopped ==> a == PlaybackAction::StartLooping,
        moving && playback != PlaybackState::Stopped ==> a == PlaybackAction::Keep,
        !moving ==> a == PlaybackAction::Stop,
{
    if moving {
        if playback == PlaybackState::Stopped {
            PlaybackAction::StartLooping
        } else {
            PlaybackAction::Keep
        }
    } else {
        PlaybackAction::Stop
    }
}

/// A running interpolation of one value of one component of an entity,
/// applied through `mutator`.
pub struct TweenInstance<C, V, F> {
    pub entity_id: EntityId,
    pub mutator: F,
    pub start_value: V,
    pub end_value: V,
    pub elapsed: Duration,
    pub duration: Duration,
    pub _component: PhantomData<C>,
}


/// What a frame does to a two-state animation: only a transition whose clip
/// has stopped moves on, and it moves on to the state it leads to (first to
/// second ends in the second state, second to first in the first), never
/// back to the state it left, restarting the clip looping; every other
/// phase stays as it is and nothing restarts.
pub proof fn law_finished_transition_rests(state: DualStateAnimationState, playback: PlaybackState)
    ensures
        ({
            let (next, restart) = dual_state_step(state, playback);
            &&& restart == (playback == PlaybackState::Stopped && (state == DualStateAnimationState::FirstToSecond
                || state == DualStateAnimationState::SecondToFirst))
            &&& (restart && state == DualStateAnimationState::FirstToSecond ==> next == DualStateAnimationState::Second)
            &&& (restart && state == DualStateAnimationState::SecondToFirst ==> next == DualStateAnimationState::First)
            &&& (!restart ==> next == state)
        }),
{
}

} // verus!
