use vstd::prelude::*;

verus! {

/// The two sides.
#[derive(Clone, Copy, PartialEq, Eq, Debug, Structural)]
pub enum Color {
    White,
    Black,
}

impl Color {
    /// The other side.
    pub open spec fn other(self) -> Color {
        match self {
            Color::White => Color::Black,
            Color::Black => Color::White,
        }
    }

    /// Flipping twice gives the side back.
    pub proof fn lemma_other_other(self)
        ensures
            self.other().other() == self,
    {
    }

    /// The other side.
    pub fn flip(self) -> (c: Color)
        ensures
            c == self.other(),
            c != self,
    {
        match self {
            Color::White => Color::Black,
            Color::Black => Color::White,
        }
    }
}

/// All piece kinds of Tamerlane chess, both colours. Each has a fixed code
/// (its position in this list, `Empty` being 0) used in the move encoding.
#[derive(Clone, Copy, PartialEq, Eq, Debug, Hash, Structural)]
pub enum Piece {
    Empty,
    WPawnPawn,
    WPawnWarengine,
    WPawnCamel,
    WPawnElephant,
    WPawnMinister,
    WPawnKing,
    WPawnAdvisor,
    WPawnGiraffe,
    WPawnCatapult,
    WPawnKnight,
    WPawnRook,
    WRook,
    WKnight,
    WCatapult,
    WGiraffe,
    WMinister,
    WKing,
    WAdvisor,
    WElephant,
    WCamel,
    WWarengine,
    WPrince,
    WAdKing,
    BPawnPawn,
    BPawnWarengine,
    BPawnCamel,
    BPawnElephant,
    BPawnMinister,
    BPawnKing,
    BPawnAdvisor,
    BPawnGiraffe,
    BPawnCatapult,
    BPawnKnight,
    BPawnRook,
    BRook,
    BKnight,
    BCatapult,
    BGiraffe,
    BMinister,
    BKing,
    BAdvisor,
    BElephant,
    BCamel,
    BWarengine,
    BPrince,
    BAdKing,
}

/// Number of piece codes (including `Empty`).
pub const NUM_PIECE_TYPES: usize = 47;

impl Piece {
    /// The numeric code of a piece.
    pub open spec fn code(self) -> u8 {
        match self {
            Piece::Empty => 0,
            Piece::WPawnPawn => 1,
            Piece::WPawnWarengine => 2,
            Piece::WPawnCamel => 3,
            Piece::WPawnElephant => 4,
            Piece::WPawnMinister => 5,
            Piece::WPawnKing => 6,
            Piece::WPawnAdvisor => 7,
            Piece::WPawnGiraffe => 8,
            Piece::WPawnCatapult => 9,
            Piece::WPawnKnight => 10,
            Piece::WPawnRook => 11,
            Piece::WRook => 12,
            Piece::WKnight => 13,
            Piece::WCatapult => 14,
            Piece::WGiraffe => 15,
            Piece::WMinister => 16,
            Piece::WKing => 17,
            Piece::WAdvisor => 18,
            Piece::WElephant => 19,
            Piece::WCamel => 20,
            Piece::WWarengine => 21,
            Piece::WPrince => 22,
            Piece::WAdKing => 23,
            Piece::BPawnPawn => 24,
            Piece::BPawnWarengine => 25,
            Piece::BPawnCamel => 26,
            Piece::BPawnElephant => 27,
            Piece::BPawnMinister => 28,
            Piece::BPawnKing => 29,
            Piece::BPawnAdvisor => 30,
            Piece::BPawnGiraffe => 31,
            Piece::BPawnCatapult => 32,
            Piece::BPawnKnight => 33,
            Piece::BPawnRook => 34,
            Piece::BRook => 35,
            Piece::BKnight => 36,
            Piece::BCatapult => 37,
            Piece::BGiraffe => 38,
            Piece::BMinister => 39,
            Piece::BKing => 40,
            Piece::BAdvisor => 41,
            Piece::BElephant => 42,
            Piece::BCamel => 43,
            Piece::BWarengine => 44,
            Piece::BPrince => 45,
            Piece::BAdKing => 46,
        }
    }

    /// The piece with a given code; `Empty` for codes outside `0..47`.
    pub open spec fn from_code(v: u8) -> Piece {
        if v == 0 { Piece::Empty }
        else if v == 1 { Piece::WPawnPawn }
        else if v == 2 { Piece::WPawnWarengine }
        else if v == 3 { Piece::WPawnCamel }
        else if v == 4 { Piece::WPawnElephant }
        else if v == 5 { Piece::WPawnMinister }
        else if v == 6 { Piece::WPawnKing }
        else if v == 7 { Piece::WPawnAdvisor }
        else if v == 8 { Piece::WPawnGiraffe }
        else if v == 9 { Piece::WPawnCatapult }
        else if v == 10 { Piece::WPawnKnight }
        else if v == 11 { Piece::WPawnRook }
        else if v == 12 { Piece::WRook }
        else if v == 13 { Piece::WKnight }
        else if v == 14 { Piece::WCatapult }
        else if v == 15 { Piece::WGiraffe }
        else if v == 16 { Piece::WMinister }
        else if v == 17 { Piece::WKing }
        else if v == 18 { Piece::WAdvisor }
        else if v == 19 { Piece::WElephant }
        else if v == 20 { Piece::WCamel }
        else if v == 21 { Piece::WWarengine }
        else if v == 22 { Piece::WPrince }
        else if v == 23 { Piece::WAdKing }
        else if v == 24 { Piece::BPawnPawn }
        else if v == 25 { Piece::BPawnWarengine }
        else if v == 26 { Piece::BPawnCamel }
        else if v == 27 { Piece::BPawnElephant }
        else if v == 28 { Piece::BPawnMinister }
        else if v == 29 { Piece::BPawnKing }
        else if v == 30 { Piece::BPawnAdvisor }
        else if v == 31 { Piece::BPawnGiraffe }
        else if v == 32 { Piece::BPawnCatapult }
        else if v == 33 { Piece::BPawnKnight }
        else if v == 34 { Piece::BPawnRook }
        else if v == 35 { Piece::BRook }
        else if v == 36 { Piece::BKnight }
        else if v == 37 { Piece::BCatapult }
        else if v == 38 { Piece::BGiraffe }
        else if v == 39 { Piece::BMinister }
        else if v == 40 { Piece::BKing }
        else if v == 41 { Piece::BAdvisor }
        else if v == 42 { Piece::BElephant }
        else if v == 43 { Piece::BCamel }
        else if v == 44 { Piece::BWarengine }
        else if v == 45 { Piece::BPrince }
        else if v == 46 { Piece::BAdKing }
        else { Piece::Empty }
    }

    /// Kind index used by material and square tables.
    /// Rook 0, Knight 1, Catapult 2, Giraffe 3, Minister 4, King-like 5, Advisor 6,
    /// Elephant 7, Camel 8, Warengine 9, plain pawn and `Empty` 10.
    pub open spec fn kind(self) -> usize {
        match self {
            Piece::Empty => 10,
            Piece::WPawnPawn => 10,
            Piece::WPawnWarengine => 9,
            Piece::WPawnCamel => 8,
            Piece::WPawnElephant => 7,
            Piece::WPawnMinister => 4,
            Piece::WPawnKing => 5,
            Piece::WPawnAdvisor => 6,
            Piece::WPawnGiraffe => 3,
            Piece::WPawnCatapult => 2,
            Piece::WPawnKnight => 1,
            Piece::WPawnRook => 0,
            Piece::WRook => 0,
            Piece::WKnight => 1,
            Piece::WCatapult => 2,
            Piece::WGiraffe => 3,
            Piece::WMinister => 4,
            Piece::WKing => 5,
            Piece::WAdvisor => 6,
            Piece::WElephant => 7,
            Piece::WCamel => 8,
            Piece::WWarengine => 9,
            Piece::WPrince => 5,
            Piece::WAdKing => 5,
            Piece::BPawnPawn => 10,
            Piece::BPawnWarengine => 9,
            Piece::BPawnCamel => 8,
            Piece::BPawnElephant => 7,
            Piece::BPawnMinister => 4,
            Piece::BPawnKing => 5,
            Piece::BPawnAdvisor => 6,
            Piece::BPawnGiraffe => 3,
            Piece::BPawnCatapult => 2,
            Piece::BPawnKnight => 1,
            Piece::BPawnRook => 0,
            Piece::BRook => 0,
            Piece::BKnight => 1,
            Piece::BCatapult => 2,
            Piece::BGiraffe => 3,
            Piece::BMinister => 4,
            Piece::BKing => 5,
            Piece::BAdvisor => 6,
            Piece::BElephant => 7,
            Piece::BCamel => 8,
            Piece::BWarengine => 9,
            Piece::BPrince => 5,
            Piece::BAdKing => 5,
        }
    }

    /// The piece a pawn becomes on promotion; every other piece is left as it is.
    pub open spec fn promotion(self) -> Piece {
        match self {
            Piece::WPawnPawn => Piece::WAdKing,
            Piece::WPawnKing => Piece::WPrince,
            Piece::WPawnWarengine => Piece::WWarengine,
            Piece::WPawnCamel => Piece::WCamel,
            Piece::WPawnElephant => Piece::WElephant,
            Piece::WPawnMinister => Piece::WMinister,
            Piece::WPawnAdvisor => Piece::WAdvisor,
            Piece::WPawnGiraffe => Piece::WGiraffe,
            Piece::WPawnCatapult => Piece::WCatapult,
            Piece::WPawnKnight => Piece::WKnight,
            Piece::WPawnRook => Piece::WRook,
            Piece::BPawnPawn => Piece::BAdKing,
            Piece::BPawnKing => Piece::BPrince,
            Piece::BPawnWarengine => Piece::BWarengine,
            Piece::BPawnCamel => Piece::BCamel,
            Piece::BPawnElephant => Piece::BElephant,
            Piece::BPawnMinister => Piece::BMinister,
            Piece::BPawnAdvisor => Piece::BAdvisor,
            Piece::BPawnGiraffe => Piece::BGiraffe,
            Piece::BPawnCatapult => Piece::BCatapult,
            Piece::BPawnKnight => Piece::BKnight,
            Piece::BPawnRook => Piece::BRook,
            _ => self,
        }
    }

    /// Side of a piece, `None` for `Empty`: codes 1..=23 are White, 24 and above Black.
    pub open spec fn side(self) -> Option<Color> {
        if self.code() == 0 {
            None
        } else if self.code() <= 23 {
            Some(Color::White)
        } else {
            Some(Color::Black)
        }
    }

    pub open spec fn white(self) -> bool {
        1 <= self.code() <= 23
    }

    pub open spec fn black(self) -> bool {
        self.code() >= 24
    }

    pub open spec fn pawn(self) -> bool {
        (1 <= self.code() <= 11) || (24 <= self.code() <= 34)
    }

    pub open spec fn king_type(self) -> bool {
        self == Piece::WKing || self == Piece::BKing || self == Piece::WPrince || self
            == Piece::BPrince || self == Piece::WAdKing || self == Piece::BAdKing
    }

    /// Every piece has a code below 47, and the code determines the piece.
    pub proof fn lemma_code(self)
        ensures
            self.code() < 47,
            Piece::from_code(self.code()) == self,
    {
    }

    /// Decoding and encoding a code below 47 gives the code back.
    pub proof fn lemma_from_code(v: u8)
        requires
            v < 47,
        ensures
            Piece::from_code(v).code() == v,
    {
    }

    /// The numeric code of the piece.
    pub fn to_u8(self) -> (r: u8)
        ensures
            r == self.code(),
    {
        match self {
            Piece::Empty => 0,
            Piece::WPawnPawn => 1,
            Piece::WPawnWarengine => 2,
            Piece::WPawnCamel => 3,
            Piece::WPawnElephant => 4,
            Piece::WPawnMinister => 5,
            Piece::WPawnKing => 6,
            Piece::WPawnAdvisor => 7,
            Piece::WPawnGiraffe => 8,
            Piece::WPawnCatapult => 9,
            Piece::WPawnKnight => 10,
            Piece::WPawnRook => 11,
            Piece::WRook => 12,
            Piece::WKnight => 13,
            Piece::WCatapult => 14,
            Piece::WGiraffe => 15,
            Piece::WMinister => 16,
            Piece::WKing => 17,
            Piece::WAdvisor => 18,
            Piece::WElephant => 19,
            Piece::WCamel => 20,
            Piece::WWarengine => 21,
            Piece::WPrince => 22,
            Piece::WAdKing => 23,
            Piece::BPawnPawn => 24,
            Piece::BPawnWarengine => 25,
            Piece::BPawnCamel => 26,
            Piece::BPawnElephant => 27,
            Piece::BPawnMinister => 28,
            Piece::BPawnKing => 29,
            Piece::BPawnAdvisor => 30,
            Piece::BPawnGiraffe => 31,
            Piece::BPawnCatapult => 32,
            Piece::BPawnKnight => 33,
            Piece::BPawnRook => 34,
            Piece::BRook => 35,
            Piece::BKnight => 36,
            Piece::BCatapult => 37,
            Piece::BGiraffe => 38,
            Piece::BMinister => 39,
            Piece::BKing => 40,
            Piece::BAdvisor => 41,
            Piece::BElephant => 42,
            Piece::BCamel => 43,
            Piece::BWarengine => 44,
            Piece::BPrince => 45,
            Piece::BAdKing => 46,
        }
    }

    /// The piece with code `v`, or `Empty` when `v` is not a piece code.
    pub fn from_u8(v: u8) -> (p: Piece)
        ensures
            p == Piece::from_code(v),
            v < NUM_PIECE_TYPES ==> p.code() == v,
            v >= NUM_PIECE_TYPES ==> p == Piece::Empty,
    {
        proof {
            if v < 47 {
                Piece::lemma_from_code(v);
            }
        }
        match v {
            0 => Piece::Empty,
            1 => Piece::WPawnPawn,
            2 => Piece::WPawnWarengine,
            3 => Piece::WPawnCamel,
            4 => Piece::WPawnElephant,
            5 => Piece::WPawnMinister,
            6 => Piece::WPawnKing,
            7 => Piece::WPawnAdvisor,
            8 => Piece::WPawnGiraffe,
            9 => Piece::WPawnCatapult,
            10 => Piece::WPawnKnight,
            11 => Piece::WPawnRook,
            12 => Piece::WRook,
            13 => Piece::WKnight,
            14 => Piece::WCatapult,
            15 => Piece::WGiraffe,
            16 => Piece::WMinister,
            17 => Piece::WKing,
            18 => Piece::WAdvisor,
            19 => Piece::WElephant,
            20 => Piece::WCamel,
            21 => Piece::WWarengine,
            22 => Piece::WPrince,
            23 => Piece::WAdKing,
            24 => Piece::BPawnPawn,
            25 => Piece::BPawnWarengine,
            26 => Piece::BPawnCamel,
            27 => Piece::BPawnElephant,
            28 => Piece::BPawnMinister,
            29 => Piece::BPawnKing,
            30 => Piece::BPawnAdvisor,
            31 => Piece::BPawnGiraffe,
            32 => Piece::BPawnCatapult,
            33 => Piece::BPawnKnight,
            34 => Piece::BPawnRook,
            35 => Piece::BRook,
            36 => Piece::BKnight,
            37 => Piece::BCatapult,
            38 => Piece::BGiraffe,
            39 => Piece::BMinister,
            40 => Piece::BKing,
            41 => Piece::BAdvisor,
            42 => Piece::BElephant,
            43 => Piece::BCamel,
            44 => Piece::BWarengine,
            45 => Piece::BPrince,
            46 => Piece::BAdKing,
            _ => Piece::Empty,
        }
    }

    /// Side of the piece, `None` for `Empty`.
    pub fn color(self) -> (c: Option<Color>)
        ensures
            c == self.side(),
    {
        let v = self.to_u8();
        if v == 0 {
            return None;
        }
        if v <= 23 {
            Some(Color::White)
        } else {
            Some(Color::Black)
        }
    }

    pub fn is_white(self) -> (b: bool)
        ensures
            b == self.white(),
    {
        let v = self.to_u8();
        v >= 1 && v <= 23
    }

    pub fn is_black(self) -> (b: bool)
        ensures
            b == self.black(),
    {
        self.to_u8() >= 24
    }

    pub fn is_pawn(self) -> (b: bool)
        ensures
            b == self.pawn(),
    {
        let v = self.to_u8();
        (v >= 1 && v <= 11) || (v >= 24 && v <= 34)
    }

    /// King, Prince and Adventitious King of either side.
    pub fn is_king_type(self) -> (b: bool)
        ensures
            b == self.king_type(),
    {
        match self {
            Piece::WKing | Piece::BKing | Piece::WPrince | Piece::BPrince | Piece::WAdKing
            | Piece::BAdKing => true,
            _ => false,
        }
    }

    /// Kind index of the piece for material and square tables.
    pub fn kind_index(self) -> (k: usize)
        ensures
            k == self.kind(),
            k <= 10,
    {
        match self {
            Piece::Empty => 10,
            Piece::WPawnPawn => 10,
            Piece::WPawnWarengine => 9,
            Piece::WPawnCamel => 8,
            Piece::WPawnElephant => 7,
            Piece::WPawnMinister => 4,
            Piece::WPawnKing => 5,
            Piece::WPawnAdvisor => 6,
            Piece::WPawnGiraffe => 3,
            Piece::WPawnCatapult => 2,
            Piece::WPawnKnight => 1,
            Piece::WPawnRook => 0,
            Piece::WRook => 0,
            Piece::WKnight => 1,
            Piece::WCatapult => 2,
            Piece::WGiraffe => 3,
            Piece::WMinister => 4,
            Piece::WKing => 5,
            Piece::WAdvisor => 6,
            Piece::WElephant => 7,
            Piece::WCamel => 8,
            Piece::WWarengine => 9,
            Piece::WPrince => 5,
            Piece::WAdKing => 5,
            Piece::BPawnPawn => 10,
            Piece::BPawnWarengine => 9,
            Piece::BPawnCamel => 8,
            Piece::BPawnElephant => 7,
            Piece::BPawnMinister => 4,
            Piece::BPawnKing => 5,
            Piece::BPawnAdvisor => 6,
            Piece::BPawnGiraffe => 3,
            Piece::BPawnCatapult => 2,
            Piece::BPawnKnight => 1,
            Piece::BPawnRook => 0,
            Piece::BRook => 0,
            Piece::BKnight => 1,
            Piece::BCatapult => 2,
            Piece::BGiraffe => 3,
            Piece::BMinister => 4,
            Piece::BKing => 5,
            Piece::BAdvisor => 6,
            Piece::BElephant => 7,
            Piece::BCamel => 8,
            Piece::BWarengine => 9,
            Piece::BPrince => 5,
            Piece::BAdKing => 5,
        }
    }

    /// The piece a pawn promotes to; other pieces are returned unchanged.
    pub fn promoted(self) -> (p: Piece)
        ensures
            p == self.promotion(),
    {
        match self {
            Piece::WPawnPawn => Piece::WAdKing,
            Piece::WPawnKing => Piece::WPrince,
            Piece::WPawnWarengine => Piece::WWarengine,
            Piece::WPawnCamel => Piece::WCamel,
            Piece::WPawnElephant => Piece::WElephant,
            Piece::WPawnMinister => Piece::WMinister,
            Piece::WPawnAdvisor => Piece::WAdvisor,
            Piece::WPawnGiraffe => Piece::WGiraffe,
            Piece::WPawnCatapult => Piece::WCatapult,
            Piece::WPawnKnight => Piece::WKnight,
            Piece::WPawnRook => Piece::WRook,
            Piece::BPawnPawn => Piece::BAdKing,
            Piece::BPawnKing => Piece::BPrince,
            Piece::BPawnWarengine => Piece::BWarengine,
            Piece::BPawnCamel => Piece::BCamel,
            Piece::BPawnElephant => Piece::BElephant,
            Piece::BPawnMinister => Piece::BMinister,
            Piece::BPawnAdvisor => Piece::BAdvisor,
            Piece::BPawnGiraffe => Piece::BGiraffe,
            Piece::BPawnCatapult => Piece::BCatapult,
            Piece::BPawnKnight => Piece::BKnight,
            Piece::BPawnRook => Piece::BRook,
            _ => self,
        }
    }
}

/// Promoting a pawn keeps its side and gives a piece that is not a pawn;
/// promoting anything else changes nothing.
pub proof fn lemma_promotion(p: Piece)
    ensures
        p.pawn() ==> !p.promotion().pawn() && p.promotion().side() == p.side()
            && p.promotion() != Piece::Empty,
        !p.pawn() ==> p.promotion() == p,
{
}


// ─── Board geometry ───────────────────────────────────────────────

/// 11 files, 10 ranks; squares live in a 15-wide mailbox of 270 entries.
pub const BOARD_FILES: usize = 11;
pub const BOARD_RANKS: usize = 10;
pub const MAILBOX_WIDTH: i32 = 15;
pub const MAILBOX_SIZE: usize = 270;

/// Mailbox index of a (file, rank) pair, both 1-based.
pub open spec fn spec_sq(file: int, rank: int) -> int {
    (rank + 3) * 15 + file + 1
}

/// Mailbox index of (file, rank).
pub fn sq(file: i32, rank: i32) -> (s: usize)
    requires
        i32::MIN <= rank + 3 <= i32::MAX,
        i32::MIN <= (rank + 3) * 15 <= i32::MAX,
        i32::MIN <= (rank + 3) * 15 + file <= i32::MAX,
        i32::MIN <= spec_sq(file as int, rank as int) <= i32::MAX,
    ensures
        s == spec_sq(file as int, rank as int) as usize,
{
    let v = (rank + 3) * MAILBOX_WIDTH + file + 1;
    let s = #[verifier::truncate] (v as usize);
    s
}

/// File (1..11) of a mailbox index.
pub fn file_of(s: usize) -> (f: i32)
    requires
        s <= i32::MAX,
    ensures
        f == (s as int) % 15 - 1,
{
    (s as i32) % MAILBOX_WIDTH - 1
}

/// Rank (1..10) of a mailbox index.
pub fn rank_of(s: usize) -> (r: i32)
    requires
        s <= i32::MAX,
    ensures
        r == (s as int) / 15 - 3,
{
    (s as i32) / MAILBOX_WIDTH - 3
}

/// The citadels: White's sq(6, 0) below rank 1, Black's sq(6, 11) above rank 10.
pub const WHITE_CITADEL: usize = 52;
pub const BLACK_CITADEL: usize = 217;

/// The pair (WHITE_CITADEL, BLACK_CITADEL).
pub fn init_citadels() -> (r: (usize, usize))
    ensures
        r == (WHITE_CITADEL, BLACK_CITADEL),
        r == (spec_sq(6, 0) as usize, spec_sq(6, 11) as usize),
{
    (WHITE_CITADEL, BLACK_CITADEL)
}

// ─── Move encoding ───────────────────────────────────────────────

/// A move packed in a u32: bits 0-7 from, bits 8-15 to, bits 16-21 captured
/// piece code, bit 22 promotion flag, bits 23-28 promoted-to piece code.
pub type Move = u32;

pub const MOVE_NONE: Move = 0;

pub open spec fn spec_mv_from(m: u32) -> int {
    (m % 256) as int
}

pub open spec fn spec_mv_to(m: u32) -> int {
    ((m / 256) % 256) as int
}

pub open spec fn spec_mv_captured(m: u32) -> Piece {
    Piece::from_code(((m / 65536) % 64) as u8)
}

pub open spec fn spec_mv_is_promotion(m: u32) -> bool {
    (m / 0x40_0000) % 2 == 1
}

pub open spec fn spec_mv_promoted_to(m: u32) -> Piece {
    Piece::from_code(((m / 0x80_0000) % 64) as u8)
}

pub fn mv_from(m: Move) -> (s: usize)
    ensures
        s == spec_mv_from(m),
        s < 256,
{
    assert(m & 0xFF == m % 256) by (bit_vector);
    (m & 0xFF) as usize
}

pub fn mv_to(m: Move) -> (s: usize)
    ensures
        s == spec_mv_to(m),
        s < 256,
{
    assert((m >> 8) & 0xFF == (m / 256) % 256) by (bit_vector);
    ((m >> 8) & 0xFF) as usize
}

pub fn mv_captured(m: Move) -> (p: Piece)
    ensures
        p == spec_mv_captured(m),
{
    assert((m >> 16) & 0x3F == (m / 65536) % 64) by (bit_vector);
    Piece::from_u8(((m >> 16) & 0x3F) as u8)
}

pub fn mv_is_promotion(m: Move) -> (b: bool)
    ensures
        b == spec_mv_is_promotion(m),
{
    assert(((m >> 22) & 1 != 0) == ((m / 0x40_0000) % 2 == 1)) by (bit_vector);
    (m >> 22) & 1 != 0
}

pub fn mv_promoted_to(m: Move) -> (p: Piece)
    ensures
        p == spec_mv_promoted_to(m),
{
    assert((m >> 23) & 0x3F == (m / 0x80_0000) % 64) by (bit_vector);
    Piece::from_u8(((m >> 23) & 0x3F) as u8)
}

/// The packed form of a move, bit by bit.
pub open spec fn spec_make_move(from: usize, to: usize, captured: Piece, promotion: bool, promoted_to: Piece) -> u32 {
    let base = (from as u32) | ((to as u32) << 8u32) | ((captured.code() as u32) << 16u32);
    if promotion {
        base | (1u32 << 22u32) | ((promoted_to.code() as u32) << 23u32)
    } else {
        base
    }
}

/// Decoding a packed move gives back its fields, for squares below 256.
pub proof fn lemma_move_fields(from: usize, to: usize, captured: Piece, promotion: bool, promoted_to: Piece)
    requires
        from < 256,
        to < 256,
    ensures
        ({
            let m = spec_make_move(from, to, captured, promotion, promoted_to);
            &&& spec_mv_from(m) == from
            &&& spec_mv_to(m) == to
            &&& spec_mv_captured(m) == captured
            &&& spec_mv_is_promotion(m) == promotion
            &&& spec_mv_promoted_to(m) == (if promotion { promoted_to } else { Piece::Empty })
        }),
{
    captured.lemma_code();
    promoted_to.lemma_code();
    let f = from as u32;
    let t = to as u32;
    let c = captured.code() as u32;
    let p = promoted_to.code() as u32;
    assert(f < 256 && t < 256 && c < 64 && p < 64);
    let base = f | (t << 8u32) | (c << 16u32);
    let full = base | (1u32 << 22u32) | (p << 23u32);
    assert(base % 256 == f && (base / 256) % 256 == t && (base / 65536) % 64 == c
        && (base / 0x40_0000) % 2 == 0 && (base / 0x80_0000) % 64 == 0) by (bit_vector)
        requires
            f < 256 && t < 256 && c < 64,
            base == f | (t << 8u32) | (c << 16u32),
    ;
    assert(full % 256 == f && (full / 256) % 256 == t && (full / 65536) % 64 == c
        && (full / 0x40_0000) % 2 == 1 && (full / 0x80_0000) % 64 == p) by (bit_vector)
        requires
            f < 256 && t < 256 && c < 64 && p < 64,
            full == f | (t << 8u32) | (c << 16u32) | (1u32 << 22u32) | (p << 23u32),
    ;
    Piece::lemma_from_code(0);
}

/// Packs a move.
pub fn make_move(from: usize, to: usize, captured: Piece, promotion: bool, promoted_to: Piece) -> (m: Move)
    ensures
        m == spec_make_move(from, to, captured, promotion, promoted_to),
{
    let f = #[verifier::truncate] (from as u32);
    let t = #[verifier::truncate] (to as u32);
    let mut m = f | (t << 8) | ((captured.to_u8() as u32) << 16);
    if promotion {
        m = m | (1u32 << 22);
        m = m | ((promoted_to.to_u8() as u32) << 23);
    }
    m
}

/// Packs a non-capturing, non-promoting move.
pub fn make_quiet(from: usize, to: usize) -> (m: Move)
    ensures
        m == spec_make_move(from, to, Piece::Empty, false, Piece::Empty),
{
    let f = #[verifier::truncate] (from as u32);
    let t = #[verifier::truncate] (to as u32);
    assert(f | (t << 8u32) == f | (t << 8u32) | (0u32 << 16u32)) by (bit_vector);
    f | (t << 8)
}

/// Packs a capture without promotion.
pub fn make_capture(from: usize, to: usize, captured: Piece) -> (m: Move)
    ensures
        m == spec_make_move(from, to, captured, false, Piece::Empty),
{
    let f = #[verifier::truncate] (from as u32);
    let t = #[verifier::truncate] (to as u32);
    f | (t << 8) | ((captured.to_u8() as u32) << 16)
}

// ─── Directions ──────────────────────────────────────────────────

pub const KNIGHT_DIRS: [i32; 8] = [-31, -29, -17, -13, 13, 17, 29, 31];
pub const CAMEL_DIRS: [i32; 8] = [-46, -44, -18, -12, 12, 18, 44, 46];
pub const GIRAFFE_DIRS: [i32; 8] = [-61, -59, -19, -11, 11, 19, 59, 61];
pub const KING_DIRS: [i32; 8] = [-16, -15, -14, -1, 1, 14, 15, 16];
pub const ROOK_DIRS: [i32; 4] = [-15, -1, 1, 15];
pub const ADVISOR_DIRS: [i32; 4] = [-15, -1, 1, 15];
pub const MINISTER_DIRS: [i32; 4] = [-16, -14, 14, 16];
pub const ELEPHANT_DIRS: [i32; 8] = [-32, -28, 28, 32, -16, -14, 14, 16];
pub const WARENGINE_DIRS: [i32; 4] = [-30, -2, 2, 30];

/// Giraffe checkpoints: the three squares that must be empty before the slide.
pub const GIRAFFE_CHECK1: [i32; 8] = [-16, -14, -16, -14, 14, 16, 14, 16];
pub const GIRAFFE_CHECK2: [i32; 8] = [-31, -29, -17, -13, 13, 17, 29, 31];
pub const GIRAFFE_CHECK3: [i32; 8] = [-46, -44, -18, -12, 12, 18, 44, 46];
pub const GIRAFFE_SLIDE: [i32; 8] = [-15, -15, -1, 1, -1, 1, 15, 15];

// ─── Scores ────────────────────────────────────────────────────

pub const INF: i32 = 100_000;
pub const MATE_SCORE: i32 = 90_000;
pub const DRAW_SCORE: i32 = 0;

} // verus!
