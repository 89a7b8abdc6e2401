//! The identifiers and the choices that the parameters of a task are made
//! of.

use vstd::prelude::*;

verus! {

/// The id of a task.
#[derive(Debug, PartialEq, Eq, Structural, PartialOrd, Ord, Clone, Copy, Hash)]
pub struct TaskId(pub i32);

impl TaskId {
    /// Creates a new [`TaskId`].
    pub fn new(id: i32) -> (r: Self)
        ensures
            r.0 == id,
    {
        Self(id)
    }
}

/// The id of an item.
#[derive(Debug, PartialEq, Eq, Structural, PartialOrd, Ord, Clone, Copy, Hash)]
pub struct ItemId(pub u32);

impl ItemId {
    /// Creates a new [`ItemId`].
    pub fn new(id: u32) -> (r: Self)
        ensures
            r.0 == id,
    {
        Self(id)
    }
}

/// What a task is enabled by where its parameters do not say.
pub fn default_true() -> (enabled: bool)
    ensures
        enabled,
{
    true
}

/// The count that stands for "as often as possible".
pub fn max_amount() -> (amount: i32)
    ensures
        amount == i32::MAX,
{
    i32::MAX
}

/// The clients in which the game can be played.
#[derive(Debug, Clone, Copy, PartialEq, Eq, Structural)]
pub enum ClientType {
    Official,
    Bilibili,
    Txwy,
    EN,
    JP,
    KR,
}

/// The name under which the engine knows a client.
pub open spec fn client_type_name(client: ClientType) -> Seq<char> {
    match client {
        ClientType::Official => "Official"@,
        ClientType::Bilibili => "Bilibili"@,
        ClientType::Txwy => "txwy"@,
        ClientType::EN => "YostarEN"@,
        ClientType::JP => "YostarJP"@,
        ClientType::KR => "YostarKR"@,
    }
}

impl ClientType {
    /// The name under which the engine knows the client.
    pub fn name(&self) -> (name: &'static str)
        ensures
            name@ == client_type_name(*self),
    {
        match self {
            ClientType::Official => "Official",
            ClientType::Bilibili => "Bilibili",
            ClientType::Txwy => "txwy",
            ClientType::EN => "YostarEN",
            ClientType::JP => "YostarJP",
            ClientType::KR => "YostarKR",
        }
    }
}

/// The servers to which item drops can be reported.
#[derive(Debug, Clone, Copy, PartialEq, Eq, Structural)]
pub enum StatsServer {
    CN,
    US,
    JP,
    KR,
}

impl Default for StatsServer {
    fn default() -> (server: StatsServer)
        ensures
            server == StatsServer::CN,
    {
        StatsServer::CN
    }
}

/// How many tags are selected when an operator is recruited.
#[derive(Debug, Clone, Copy, PartialEq, Eq, Structural)]
pub enum TagsMode {
    /// No additional tags are selected.
    Default,
    /// Always three tags, even where they conflict.
    AlwaysThree,
    /// As many tags of high rarity as possible, even where they conflict.
    MaximumPossible,
}

impl Default for TagsMode {
    fn default() -> (mode: TagsMode)
        ensures
            mode == TagsMode::Default,
    {
        TagsMode::Default
    }
}

/// How operators are shifted in the base when their morale is low.
#[derive(Debug, Clone, PartialEq, Eq)]
pub enum ShiftMode {
    /// The engine's own way.
    Default,
    /// A schedule of the user's.
    Custom {
        /// The file that holds the schedules.
        filename: String,
        /// The index of the schedule to use.
        index: usize,
    },
}

impl Default for ShiftMode {
    fn default() -> (mode: ShiftMode)
        ensures
            mode is Default,
    {
        ShiftMode::Default
    }
}

/// The facilities of the base.
#[derive(Debug, Clone, Copy, PartialEq, Eq, Structural)]
pub enum Facility {
    Factory,
    TradingPost,
    PowerPlant,
    ControlCenter,
    Reception,
    Office,
    Dorm,
}

/// The name under which the engine knows a facility.
pub open spec fn facility_name(facility: Facility) -> Seq<char> {
    match facility {
        Facility::Factory => "Mfg"@,
        Facility::TradingPost => "Trade"@,
        Facility::PowerPlant => "Power"@,
        Facility::ControlCenter => "Control"@,
        Facility::Reception => "Reception"@,
        Facility::Office => "Office"@,
        Facility::Dorm => "Dorm"@,
    }
}

impl Facility {
    /// The name under which the engine knows the facility.
    pub fn name(&self) -> (name: &'static str)
        ensures
            name@ == facility_name(*self),
    {
        match self {
            Facility::Factory => "Mfg",
            Facility::TradingPost => "Trade",
            Facility::PowerPlant => "Power",
            Facility::ControlCenter => "Control",
            Facility::Reception => "Reception",
            Facility::Office => "Office",
            Facility::Dorm => "Dorm",
        }
    }
}

/// The themes of Integrated Strategies.
#[derive(Debug, Clone, Copy, PartialEq, Eq, Structural)]
pub enum IntegratedStrategiesTheme {
    Phantom,
    Mizuki,
}

impl Default for IntegratedStrategiesTheme {
    fn default() -> (theme: IntegratedStrategiesTheme)
        ensures
            theme == IntegratedStrategiesTheme::Phantom,
    {
        IntegratedStrategiesTheme::Phantom
    }
}

/// When a run of Integrated Strategies is left.
#[derive(Debug, Clone, Copy, PartialEq, Eq, Structural)]
pub enum ExitMode {
    /// Play as far as possible with a stable strategy.
    Candle,
    /// Leave after the first level.
    OriginiumIngots,
    /// Play until the investments are made.
    Both,
    /// Play as far as possible with an aggressive strategy.
    Pass,
}

impl Default for ExitMode {
    fn default() -> (mode: ExitMode)
        ensures
            mode == ExitMode::Candle,
    {
        ExitMode::Candle
    }
}

/// The themes of the Reclamation Algorithm.
#[derive(Debug, Clone, Copy, PartialEq, Eq, Structural)]
pub enum ReclamationAlgorithmTheme {
    FireWithinSand,
    TalesWithinSand,
}

/// The name under which the engine knows a theme.
pub open spec fn reclamation_theme_name(theme: ReclamationAlgorithmTheme) -> Seq<char> {
    match theme {
        ReclamationAlgorithmTheme::FireWithinSand => "Fire Within the Sand"@,
        ReclamationAlgorithmTheme::TalesWithinSand => "Tales Within the Sand"@,
    }
}

impl ReclamationAlgorithmTheme {
    /// The name under which the engine knows the theme.
    pub fn name(&self) -> (name: &'static str)
        ensures
            name@ == reclamation_theme_name(*self),
    {
        match self {
            ReclamationAlgorithmTheme::FireWithinSand => "Fire Within the Sand",
            ReclamationAlgorithmTheme::TalesWithinSand => "Tales Within the Sand",
        }
    }
}

impl Default for ReclamationAlgorithmTheme {
    fn default() -> (theme: ReclamationAlgorithmTheme)
        ensures
            theme == ReclamationAlgorithmTheme::FireWithinSand,
    {
        ReclamationAlgorithmTheme::FireWithinSand
    }
}

/// The ways to play the Reclamation Algorithm.
#[derive(Debug, Clone, Copy, PartialEq, Eq, Structural)]
pub enum ReclamationAlgorithmMode {
    /// Farm badges and construction points, then leave the stage.
    FarmBadges,
    /// Farm crude gold and forge it at the headquarters.
    FarmCrudeGold,
}

impl Default for ReclamationAlgorithmMode {
    fn default() -> (mode: ReclamationAlgorithmMode)
        ensures
            mode == ReclamationAlgorithmMode::FarmBadges,
    {
        ReclamationAlgorithmMode::FarmBadges
    }
}

/// The kinds of a task that takes a single step.
#[derive(Debug, Clone, Copy, PartialEq, Eq, Structural)]
pub enum StepType {
    Copilot,
}

/// The directions in which an operator can face.
#[derive(Debug, Clone, Copy, PartialEq, Eq, Structural)]
pub enum Direction {
    Left,
    Right,
    Up,
    Down,
    Neutral,
}

/// What a task that takes a single step does.
#[derive(Debug, PartialEq, Eq)]
pub enum Subtask {
    /// Enter a stage.
    Stage { stage: String },
    /// Start the operation.
    Start,
    /// Act on the field.
    Action { name: String, location: (isize, isize), direction: Direction },
}

impl Clone for Subtask {
    fn clone(&self) -> (copy: Subtask)
        ensures
            copy == *self,
    {
        match self {
            Subtask::Stage { stage } => Subtask::Stage { stage: stage.clone() },
            Subtask::Start => Subtask::Start,
            Subtask::Action { name, location, direction } => Subtask::Action {
                name: name.clone(),
                location: (location.0, location.1),
                direction: *direction,
            },
        }
    }
}

} // verus!
