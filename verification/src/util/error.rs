use vstd::prelude::*;

verus! {

/// The reason a proposed move was rejected. Every rule of the game that
/// can reject a move has its own variant, so a caller can tell exactly
/// which rule fired.
#[derive(Debug, Copy, Clone, PartialEq, Eq, Structural)]
pub enum ValidationReason {
    /// A set move names a destination that is not a board cell.
    DestinationOutOfBounds,
    /// The destination cell is obstructed.
    DestinationObstructed,
    /// The second player's first piece must touch the opponent's swarm.
    MustTouchOpponentSwarm,
    /// The bee must be placed by the fourth round.
    BeeDeadline,
    /// The piece to set is not in the mover's undeployed pool.
    PieceNotUndeployed,
    /// A set destination must touch the mover's own swarm.
    MustTouchOwnSwarm,
    /// A set destination must not touch the opponent's swarm.
    MustNotTouchOpponentSwarm,
    /// A drag move requires the mover's bee to be on the board.
    BeeNotPlaced,
    /// A drag move names a start that is not a board cell.
    StartOutOfBounds,
    /// The start cell of a drag move holds no piece.
    NoPieceToMove,
    /// The piece at the start cell belongs to the opponent.
    OpponentPiece,
    /// Start and destination of a drag move must differ.
    StartIsDestination,
    /// Only a beetle may move onto an occupied cell.
    OnlyBeetlesClimb,
    /// Removing the piece from its start cell would disconnect the swarm.
    WouldDisconnectSwarm,
    /// The destination is not adjacent to the start.
    NotAdjacent,
    /// No sliding move exists between the two adjacent cells.
    NoSlidePath,
    /// A beetle move must keep contact with the swarm.
    BeetleMustStayWithSwarm,
    /// A grasshopper only jumps along straight lines.
    GrasshopperNeedsLine,
    /// A grasshopper must not move to an adjacent cell.
    GrasshopperMustJump,
    /// A grasshopper cannot jump over empty cells.
    GrasshopperOverEmpty,
    /// No three-step sliding path exists for the spider.
    NoSpiderPath,
    /// No sliding path along the swarm boundary exists for the ant.
    NoAntPath,
}

/// The error type of the whole crate. Deserialization failures keep the
/// offending key or literal; move rejections carry their
/// [`ValidationReason`].
#[derive(Debug, PartialEq, Eq)]
pub enum SCError {
    /// An XML element lacks the named attribute.
    MissingAttribute(String),
    /// An XML element lacks a child element with the given name.
    MissingChild(String),
    /// A literal (a color, a piece type, a score kind) was not recognized.
    UnrecognizedLiteral(String),
    /// A numeric attribute could not be parsed as an integer in range.
    MalformedNumber(String),
    /// A boolean attribute is neither `true` nor `false`.
    MalformedBool(String),
    /// A proposed move broke a rule of the game.
    Validation(ValidationReason),
    /// Any other failure, described in prose.
    Custom(String),
}

/// The result type used throughout the crate.
pub type SCResult<T> = Result<T, SCError>;

} // verus!
