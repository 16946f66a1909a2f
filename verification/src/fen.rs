//! Checking and correcting a position string that a vision model replied
//! with: king and pawn counts, castling rights recomputed from the home
//! squares, and a final syntax check.

use crate::text::{
    chars_of, copy_range, count_char, count_of, decimal, fields, is_space, lemma_run_len_ends,
    lemma_run_len_is, push_chars, push_decimal, run_len, split_at_char, split_fields, split_on,
    string_of, views, CharClass,
};
use shakmaty::fen::{Fen, ParseFenError};
use vstd::prelude::*;
use vstd::string::*;

verus! {

/// Why a position string is not syntactically a FEN.
#[derive(Clone, Copy, Debug, PartialEq, Eq, Structural)]
pub enum FenSyntaxError {
    InvalidFen,
    InvalidBoard,
    InvalidPocket,
    InvalidTurn,
    InvalidCastling,
    InvalidEpSquare,
    InvalidRemainingChecks,
    InvalidHalfmoveClock,
    InvalidFullmoves,
}

/// Why a reply was not accepted as a position.
#[derive(Debug)]
pub enum FenError {
    /// Not exactly one king of each colour.
    KingCount { white: usize, black: usize, received: String },
    /// More than eight white pawns.
    WhitePawns { count: usize, received: String },
    /// More than eight black pawns.
    BlackPawns { count: usize, received: String },
    /// The corrected string is not a FEN.
    Syntax { reason: FenSyntaxError, corrected: String },
}

/// A `FenError` with its strings as sequences.
pub enum FenFault {
    KingCount { white: nat, black: nat, received: Seq<char> },
    WhitePawns { count: nat, received: Seq<char> },
    BlackPawns { count: nat, received: Seq<char> },
    Syntax { reason: FenSyntaxError, corrected: Seq<char> },
}

impl View for FenError {
    type V = FenFault;

    open spec fn view(&self) -> FenFault {
        match self {
            FenError::KingCount { white, black, received } => FenFault::KingCount {
                white: *white as nat,
                black: *black as nat,
                received: received@,
            },
            FenError::WhitePawns { count, received } => FenFault::WhitePawns {
                count: *count as nat,
                received: received@,
            },
            FenError::BlackPawns { count, received } => FenFault::BlackPawns {
                count: *count as nat,
                received: received@,
            },
            FenError::Syntax { reason, corrected } => FenFault::Syntax {
                reason: *reason,
                corrected: corrected@,
            },
        }
    }
}

/// What the FEN parser finds wrong with `text`, if anything.
pub uninterp spec fn fen_syntax_fault(text: Seq<char>) -> Option<FenSyntaxError>;

/// The value of a decimal digit.
pub open spec fn digit_value(c: char) -> Option<nat> {
    if '0' <= c <= '9' {
        Some((c as u32 - 0x30) as nat)
    } else {
        None
    }
}

/// What one symbol of a rank stands for: a digit for that many empty
/// squares, written as dots, anything else for itself.
pub open spec fn expand_symbol(c: char) -> Seq<char> {
    match digit_value(c) {
        Some(n) => Seq::new(n, |i: int| '.'),
        None => seq![c],
    }
}

/// A rank with its empty squares written out as dots.
pub open spec fn expand_rank(rank: Seq<char>) -> Seq<char>
    decreases rank.len(),
{
    if rank.len() == 0 {
        Seq::empty()
    } else {
        expand_rank(rank.drop_last()) + expand_symbol(rank.last())
    }
}

/// Whether `piece` stands on the given file of a written-out rank.
pub open spec fn stands_at(row: Seq<char>, file: int, piece: char) -> bool {
    0 <= file < row.len() && row[file] == piece
}

/// The flag `c` if `on`, nothing otherwise.
pub open spec fn flag(on: bool, c: char) -> Seq<char> {
    if on {
        seq![c]
    } else {
        Seq::empty()
    }
}

/// The castling flags that the two back ranks allow.
pub open spec fn castling_flags(white_back: Seq<char>, black_back: Seq<char>) -> Seq<char> {
    let white_king = stands_at(white_back, 4, 'K');
    let black_king = stands_at(black_back, 4, 'k');
    flag(white_king && stands_at(white_back, 7, 'R'), 'K') + flag(
        white_king && stands_at(white_back, 0, 'R'),
        'Q',
    ) + flag(black_king && stands_at(black_back, 7, 'r'), 'k') + flag(
        black_king && stands_at(black_back, 0, 'r'),
        'q',
    )
}

/// The castling field: the flags, or a dash where there are none.
pub open spec fn castling_field(white_back: Seq<char>, black_back: Seq<char>) -> Seq<char> {
    let flags = castling_flags(white_back, black_back);
    if flags.len() == 0 {
        seq!['-']
    } else {
        flags
    }
}

/// A position string from its board, its turn and its two written-out back
/// ranks; the remaining fields are fixed.
pub open spec fn rebuilt_fen(
    board: Seq<char>,
    turn: Seq<char>,
    white_back: Seq<char>,
    black_back: Seq<char>,
) -> Seq<char> {
    board + " "@ + turn + " "@ + castling_field(white_back, black_back) + " - 0 1"@
}

/// `fen` with its castling field recomputed from where kings and rooks
/// stand. A string with fewer than three fields, or whose board has not
/// eight ranks, is left as it is.
pub open spec fn corrected_fen(fen: Seq<char>) -> Seq<char> {
    let parts = fields(fen);
    if parts.len() < 3 {
        fen
    } else {
        let ranks = split_on(parts[0], '/');
        if ranks.len() != 8 {
            fen
        } else {
            rebuilt_fen(parts[0], parts[1], expand_rank(ranks[7]), expand_rank(ranks[0]))
        }
    }
}

/// The board part of a reply: its first field, or nothing.
pub open spec fn board_part(fen: Seq<char>) -> Seq<char> {
    if fields(fen).len() == 0 {
        Seq::empty()
    } else {
        fields(fen)[0]
    }
}

/// What the counts of kings and pawns rule out, if anything.
pub open spec fn count_fault(fen: Seq<char>) -> Option<FenFault> {
    let board = board_part(fen);
    let white_kings = count_of(board, 'K');
    let black_kings = count_of(board, 'k');
    let white_pawns = count_of(board, 'P');
    let black_pawns = count_of(board, 'p');
    if white_kings != 1 || black_kings != 1 {
        Some(FenFault::KingCount { white: white_kings, black: black_kings, received: fen })
    } else if white_pawns > 8 {
        Some(FenFault::WhitePawns { count: white_pawns, received: fen })
    } else if black_pawns > 8 {
        Some(FenFault::BlackPawns { count: black_pawns, received: fen })
    } else {
        None
    }
}

/// What a corrected string and the parser's finding amount to.
pub open spec fn concluded(corrected: Seq<char>, fault: Option<FenSyntaxError>) -> Result<
    Seq<char>,
    FenFault,
> {
    match fault {
        None => Ok(corrected),
        Some(reason) => Err(FenFault::Syntax { reason, corrected }),
    }
}

/// The outcome of validating `fen`, given what the parser finds in the
/// corrected string.
pub open spec fn validated(fen: Seq<char>, fault: Option<FenSyntaxError>) -> Result<
    Seq<char>,
    FenFault,
> {
    match count_fault(fen) {
        Some(bad) => Err(bad),
        None => concluded(corrected_fen(fen), fault),
    }
}

/// Whether `outcome` is `expected`, strings taken as sequences.
pub open spec fn outcome_is(
    outcome: Result<String, FenError>,
    expected: Result<Seq<char>, FenFault>,
) -> bool {
    match outcome {
        Ok(text) => expected == Ok::<Seq<char>, FenFault>(text@),
        Err(error) => expected == Err::<Seq<char>, FenFault>(error@),
    }
}

/// The parser's words for a syntax error.
pub open spec fn syntax_text(reason: FenSyntaxError) -> Seq<char> {
    match reason {
        FenSyntaxError::InvalidFen => "invalid fen"@,
        FenSyntaxError::InvalidBoard => "invalid board part in fen"@,
        FenSyntaxError::InvalidPocket => "invalid pocket in fen"@,
        FenSyntaxError::InvalidTurn => "invalid turn part in fen"@,
        FenSyntaxError::InvalidCastling => "invalid castling part in fen"@,
        FenSyntaxError::InvalidEpSquare => "invalid ep square in fen"@,
        FenSyntaxError::InvalidRemainingChecks => "invalid remaining checks in fen"@,
        FenSyntaxError::InvalidHalfmoveClock => "invalid halfmove clock in fen"@,
        FenSyntaxError::InvalidFullmoves => "invalid fullmove part in fen"@,
    }
}

/// The message of a fault.
pub open spec fn fault_text(fault: FenFault) -> Seq<char> {
    match fault {
        FenFault::KingCount { white, black, received } => {
            "Invalid FEN from LLM: expected exactly 1 king per side, got "@ + decimal(white)
                + " white kings and "@ + decimal(black) + " black kings (received: '"@ + received
                + "')"@
        },
        FenFault::WhitePawns { count, received } => {
            "Invalid FEN from LLM: White has "@ + decimal(count)
                + " pawns (max 8). LLM likely forgot to remove pawn from starting square. (received: '"@
                + received + "')"@
        },
        FenFault::BlackPawns { count, received } => {
            "Invalid FEN from LLM: Black has "@ + decimal(count)
                + " pawns (max 8). LLM likely forgot to remove pawn from starting square. (received: '"@
                + received + "')"@
        },
        FenFault::Syntax { reason, corrected } => {
            "Invalid FEN syntax from LLM: "@ + syntax_text(reason) + " (received: '"@ + corrected
                + "')"@
        },
    }
}

impl FenSyntaxError {
    /// The parser's words for this error.
    pub fn description(&self) -> (text: &'static str)
        ensures
            text@ == syntax_text(*self),
    {
        match self {
            FenSyntaxError::InvalidFen => "invalid fen",
            FenSyntaxError::InvalidBoard => "invalid board part in fen",
            FenSyntaxError::InvalidPocket => "invalid pocket in fen",
            FenSyntaxError::InvalidTurn => "invalid turn part in fen",
            FenSyntaxError::InvalidCastling => "invalid castling part in fen",
            FenSyntaxError::InvalidEpSquare => "invalid ep square in fen",
            FenSyntaxError::InvalidRemainingChecks => "invalid remaining checks in fen",
            FenSyntaxError::InvalidHalfmoveClock => "invalid halfmove clock in fen",
            FenSyntaxError::InvalidFullmoves => "invalid fullmove part in fen",
        }
    }
}

impl FenError {
    /// The message of this error.
    pub fn message(&self) -> (text: String)
        ensures
            text@ == fault_text(self@),
    {
        match self {
            FenError::KingCount { white, black, received } => {
                let mut text = "Invalid FEN from LLM: expected exactly 1 king per side, got ".to_string();
                push_decimal(&mut text, *white as u64);
                text.append(" white kings and ");
                push_decimal(&mut text, *black as u64);
                text.append(" black kings (received: '");
                text.append(received.as_str());
                text.append("')");
                text
            },
            FenError::WhitePawns { count, received } => {
                let mut text = "Invalid FEN from LLM: White has ".to_string();
                push_decimal(&mut text, *count as u64);
                text.append(
                    " pawns (max 8). LLM likely forgot to remove pawn from starting square. (received: '",
                );
                text.append(received.as_str());
                text.append("')");
                text
            },
            FenError::BlackPawns { count, received } => {
                let mut text = "Invalid FEN from LLM: Black has ".to_string();
                push_decimal(&mut text, *count as u64);
                text.append(
                    " pawns (max 8). LLM likely forgot to remove pawn from starting square. (received: '",
                );
                text.append(received.as_str());
                text.append("')");
                text
            },
            FenError::Syntax { reason, corrected } => {
                let mut text = "Invalid FEN syntax from LLM: ".to_string();
                text.append(reason.description());
                text.append(" (received: '");
                text.append(corrected.as_str());
                text.append("')");
                text
            },
        }
    }
}

/// Calls `shakmaty::fen::Fen::from_ascii` on the bytes of `text`. What the
/// parser decides is not restated here: the result is given the name
/// `fen_syntax_fault`, `None` where the parser accepts the string and the
/// parser's error otherwise.
#[verifier::external_body]
pub(crate) fn syntax_fault(text: &str) -> (fault: Option<FenSyntaxError>)
    ensures
        fault == fen_syntax_fault(text@),
{
    match Fen::from_ascii(text.as_bytes()) {
        Ok(_) => None,
        Err(ParseFenError::InvalidFen) => Some(FenSyntaxError::InvalidFen),
        Err(ParseFenError::InvalidBoard) => Some(FenSyntaxError::InvalidBoard),
        Err(ParseFenError::InvalidPocket) => Some(FenSyntaxError::InvalidPocket),
        Err(ParseFenError::InvalidTurn) => Some(FenSyntaxError::InvalidTurn),
        Err(ParseFenError::InvalidCastling) => Some(FenSyntaxError::InvalidCastling),
        Err(ParseFenError::InvalidEpSquare) => Some(FenSyntaxError::InvalidEpSquare),
        Err(ParseFenError::InvalidRemainingChecks) => Some(FenSyntaxError::InvalidRemainingChecks),
        Err(ParseFenError::InvalidHalfmoveClock) => Some(FenSyntaxError::InvalidHalfmoveClock),
        Err(ParseFenError::InvalidFullmoves) => Some(FenSyntaxError::InvalidFullmoves),
    }
}

/// A rank with its empty squares written out as dots.
pub fn expanded_rank(rank: &Vec<char>) -> (row: Vec<char>)
    ensures
        row@ == expand_rank(rank@),
{
    let mut row: Vec<char> = Vec::new();
    let mut i: usize = 0;
    while i < rank.len()
        invariant
            i <= rank.len(),
            row@ == expand_rank(rank@.take(i as int)),
        decreases rank.len() - i,
    {
        let c = rank[i];
        proof {
            assert(rank@.take(i + 1).drop_last() == rank@.take(i as int));
        }
        if '0' <= c && c <= '9' {
            let n: u32 = c as u32 - 0x30;
            let ghost before = row@;
            let mut k: u32 = 0;
            while k < n
                invariant
                    k <= n,
                    row@ == before + Seq::new(k as nat, |i: int| '.'),
                decreases n - k,
            {
                row.push('.');
                k += 1;
                assert(Seq::new(k as nat, |i: int| '.') == Seq::new((k - 1) as nat, |i: int| '.').push(
                    '.',
                ));
            }
        } else {
            row.push(c);
            assert(row@ == expand_rank(rank@.take(i as int)) + seq![c]);
        }
        i += 1;
    }
    assert(rank@.take(rank.len() as int) == rank@);
    row
}

/// Whether `piece` stands on the given file of a written-out rank.
pub fn piece_at(row: &Vec<char>, file: usize, piece: char) -> (there: bool)
    ensures
        there == stands_at(row@, file as int, piece),
{
    file < row.len() && row[file] == piece
}

/// The castling field that the two written-out back ranks allow.
pub fn castling_of(white_back: &Vec<char>, black_back: &Vec<char>) -> (field: Vec<char>)
    ensures
        field@ == castling_field(white_back@, black_back@),
{
    let white_king = piece_at(white_back, 4, 'K');
    let black_king = piece_at(black_back, 4, 'k');
    let mut field: Vec<char> = Vec::new();
    if white_king && piece_at(white_back, 7, 'R') {
        field.push('K');
    }
    if white_king && piece_at(white_back, 0, 'R') {
        field.push('Q');
    }
    if black_king && piece_at(black_back, 7, 'r') {
        field.push('k');
    }
    if black_king && piece_at(black_back, 0, 'r') {
        field.push('q');
    }
    assert(field@ == castling_flags(white_back@, black_back@));
    if field.len() == 0 {
        field.push('-');
    }
    field
}

/// Recomputes the castling field of `fen` from where kings and rooks
/// stand: a right stays only while the king and that rook are on their
/// home squares. The fields after it become `- 0 1`.
pub fn fix_castling_rights(fen: &str) -> (fixed: String)
    ensures
        fixed@ == corrected_fen(fen@),
{
    let chars = chars_of(fen);
    let parts = split_fields(&chars);
    if parts.len() < 3 {
        return string_of(&chars);
    }
    proof {
        assert(views(parts@)[0] == parts@[0]@);
        assert(views(parts@)[1] == parts@[1]@);
    }
    let ranks = split_at_char(&parts[0], '/');
    if ranks.len() != 8 {
        return string_of(&chars);
    }
    proof {
        assert(views(ranks@)[7] == ranks@[7]@);
        assert(views(ranks@)[0] == ranks@[0]@);
    }
    let white_back = expanded_rank(&ranks[7]);
    let black_back = expanded_rank(&ranks[0]);
    let castling = castling_of(&white_back, &black_back);
    let mut fixed = String::new();
    push_chars(&mut fixed, &parts[0]);
    fixed.append(" ");
    push_chars(&mut fixed, &parts[1]);
    fixed.append(" ");
    push_chars(&mut fixed, &castling);
    fixed.append(" - 0 1");
    assert(fixed@ == rebuilt_fen(parts@[0]@, parts@[1]@, white_back@, black_back@)) by {
        assert(Seq::<char>::empty() + parts@[0]@ == parts@[0]@);
    }
    fixed
}

/// Checks that the board part of `fen` holds exactly one king of each
/// colour and at most eight pawns of each.
pub fn check_counts(fen: &str) -> (checked: Result<(), FenError>)
    ensures
        match checked {
            Ok(_) => count_fault(fen@) is None,
            Err(error) => count_fault(fen@) == Some(error@),
        },
{
    let chars = chars_of(fen);
    let parts = split_fields(&chars);
    let board: Vec<char> = if parts.len() == 0 {
        Vec::new()
    } else {
        assert(views(parts@)[0] == parts@[0]@);
        copy_range(&parts[0], 0, parts[0].len())
    };
    assert(board@ == board_part(fen@)) by {
        if parts.len() > 0 {
            assert(parts@[0]@.subrange(0, parts@[0]@.len() as int) == parts@[0]@);
        }
    }
    let white_kings = count_char(&board, 'K');
    let black_kings = count_char(&board, 'k');
    if white_kings != 1 || black_kings != 1 {
        return Err(
            FenError::KingCount { white: white_kings, black: black_kings, received: string_of(&chars) },
        );
    }
    let white_pawns = count_char(&board, 'P');
    let black_pawns = count_char(&board, 'p');
    if white_pawns > 8 {
        return Err(FenError::WhitePawns { count: white_pawns, received: string_of(&chars) });
    }
    if black_pawns > 8 {
        return Err(FenError::BlackPawns { count: black_pawns, received: string_of(&chars) });
    }
    Ok(())
}

/// Accepts the corrected string where the parser found nothing wrong with
/// it, and reports the parser's finding otherwise.
pub fn conclude_validation(corrected: String, fault: Option<FenSyntaxError>) -> (outcome: Result<
    String,
    FenError,
>)
    ensures
        outcome_is(outcome, concluded(corrected@, fault)),
{
    match fault {
        None => Ok(corrected),
        Some(reason) => Err(FenError::Syntax { reason, corrected }),
    }
}

/// Validates a reply: the counts of kings and pawns are checked, the
/// castling field is recomputed, and the corrected string must then parse
/// as a FEN. A reply with a wrong number of kings or too many pawns is
/// never accepted, whatever the parser would say.
pub fn validate_fen(fen: &str) -> (outcome: Result<String, FenError>)
    ensures
        outcome_is(outcome, validated(fen@, fen_syntax_fault(corrected_fen(fen@)))),
        count_fault(fen@) is Some ==> outcome is Err,
        outcome matches Ok(text) ==> text@ == corrected_fen(fen@),
{
    match check_counts(fen) {
        Err(error) => Err(error),
        Ok(_) => {
            let corrected = fix_castling_rights(fen);
            let fault = syntax_fault(corrected.as_str());
            conclude_validation(corrected, fault)
        },
    }
}

/// A reply with a wrong number of kings, or with more than eight pawns of
/// a colour, is not accepted, whatever the parser finds.
pub proof fn law_bad_counts_are_rejected(fen: Seq<char>, fault: Option<FenSyntaxError>)
    requires
        ({
            ||| count_of(board_part(fen), 'K') != 1
            ||| count_of(board_part(fen), 'k') != 1
            ||| count_of(board_part(fen), 'P') > 8
            ||| count_of(board_part(fen), 'p') > 8
        }),
    ensures
        validated(fen, fault) is Err,
{
}

/// Each castling flag stands in the castling field exactly while the king
/// and that rook are on their home squares; with the black king away from
/// its home square there is no black flag, and the white flags stay as
/// the white home squares have them.
pub proof fn law_castling_follows_home_squares(white_back: Seq<char>, black_back: Seq<char>)
    ensures
        castling_field(white_back, black_back).contains('K') <==> stands_at(white_back, 4, 'K')
            && stands_at(white_back, 7, 'R'),
        castling_field(white_back, black_back).contains('Q') <==> stands_at(white_back, 4, 'K')
            && stands_at(white_back, 0, 'R'),
        castling_field(white_back, black_back).contains('k') <==> stands_at(black_back, 4, 'k')
            && stands_at(black_back, 7, 'r'),
        castling_field(white_back, black_back).contains('q') <==> stands_at(black_back, 4, 'k')
            && stands_at(black_back, 0, 'r'),
        !stands_at(black_back, 4, 'k') ==> !castling_field(white_back, black_back).contains('k')
            && !castling_field(white_back, black_back).contains('q'),
        castling_field(white_back, black_back).contains('-') <==> castling_flags(
            white_back,
            black_back,
        ).len() == 0,
{
    let white_king = stands_at(white_back, 4, 'K');
    let black_king = stands_at(black_back, 4, 'k');
    let a = flag(white_king && stands_at(white_back, 7, 'R'), 'K');
    let b = flag(white_king && stands_at(white_back, 0, 'R'), 'Q');
    let c = flag(black_king && stands_at(black_back, 7, 'r'), 'k');
    let d = flag(black_king && stands_at(black_back, 0, 'r'), 'q');
    let flags = castling_flags(white_back, black_back);
    assert(flags == a + b + c + d);
    assert forall|wanted: char| flags.contains(wanted) <==> a.contains(wanted) || b.contains(
        wanted,
    ) || c.contains(wanted) || d.contains(wanted) by {
        if flags.contains(wanted) {
            let i = choose|i: int| 0 <= i < flags.len() && flags[i] == wanted;
            if i < a.len() {
                assert(a[i] == wanted);
            } else if i < a.len() + b.len() {
                assert(b[i - a.len()] == wanted);
            } else if i < a.len() + b.len() + c.len() {
                assert(c[i - a.len() - b.len()] == wanted);
            } else {
                assert(d[i - a.len() - b.len() - c.len()] == wanted);
            }
        }
        if a.contains(wanted) {
            let i = choose|i: int| 0 <= i < a.len() && a[i] == wanted;
            assert(flags[i] == wanted);
        }
        if b.contains(wanted) {
            let i = choose|i: int| 0 <= i < b.len() && b[i] == wanted;
            assert(flags[a.len() + i] == wanted);
        }
        if c.contains(wanted) {
            let i = choose|i: int| 0 <= i < c.len() && c[i] == wanted;
            assert(flags[a.len() + b.len() + i] == wanted);
        }
        if d.contains(wanted) {
            let i = choose|i: int| 0 <= i < d.len() && d[i] == wanted;
            assert(flags[a.len() + b.len() + c.len() + i] == wanted);
        }
    }
    assert forall|on: bool, c: char, wanted: char| #[trigger]
        flag(on, c).contains(wanted) <==> on && c == wanted by {
        if on && c == wanted {
            assert(flag(on, c)[0] == wanted);
        }
    }
    if flags.len() == 0 {
        assert(seq!['-'][0] == '-');
    }
}

/// The fields of a text that begins with a word, where the word ends at
/// the end of the text or before a space: the word, and the fields of
/// the rest.
pub proof fn lemma_fields_after_word(word: Seq<char>, rest: Seq<char>)
    requires
        word.len() > 0,
        forall|i: int| 0 <= i < word.len() ==> !is_space(#[trigger] word[i]),
        rest.len() == 0 || is_space(rest[0]),
    ensures
        fields(word + rest) == seq![word] + fields(rest),
{
    let text = word + rest;
    lemma_run_len_is(text, CharClass::Space, 0);
    assert(text.skip(0) == text);
    assert forall|k: int| 0 <= k < word.len() implies CharClass::Word.holds(#[trigger] text[k]) by {
        assert(text[k] == word[k]);
    }
    if rest.len() > 0 {
        assert(text[word.len() as int] == rest[0]);
    }
    lemma_run_len_is(text, CharClass::Word, word.len() as int);
    assert(text.take(word.len() as int) == word);
    assert(text.skip(word.len() as int) == rest);
}

/// Spaces in front of a text do not change its fields.
pub proof fn lemma_fields_after_space(rest: Seq<char>)
    ensures
        fields(seq![' '] + rest) == fields(rest),
{
    let text = seq![' '] + rest;
    assert(is_space(' '));
    assert(text.drop_first() == rest);
    lemma_run_len_ends(text, CharClass::Space);
    lemma_run_len_ends(rest, CharClass::Space);
    let n = run_len(rest, CharClass::Space);
    assert(run_len(text, CharClass::Space) == 1 + n);
    assert(text.skip(1 + n as int) == rest.skip(n as int));
}

/// Every field is a word: it is not empty and holds no space.
pub proof fn lemma_fields_are_words(text: Seq<char>, k: int)
    requires
        0 <= k < fields(text).len(),
    ensures
        fields(text)[k].len() > 0,
        forall|i: int| 0 <= i < fields(text)[k].len() ==> !is_space(#[trigger] fields(text)[k][i]),
    decreases text.len(),
{
    let rest = text.skip(run_len(text, CharClass::Space) as int);
    let n = run_len(rest, CharClass::Word);
    lemma_run_len_ends(rest, CharClass::Word);
    let word = rest.take(n as int);
    if k == 0 {
        assert(fields(text)[0] == word);
        assert forall|i: int| 0 <= i < word.len() implies !is_space(#[trigger] word[i]) by {
            assert(word[i] == rest[i]);
            assert(CharClass::Word.holds(rest[i]));
        }
    } else {
        assert(fields(text)[k] == fields(rest.skip(n as int))[k - 1]);
        lemma_fields_are_words(rest.skip(n as int), k - 1);
    }
}

/// The fields of the fixed end of a corrected position string.
pub proof fn lemma_fixed_fields()
    ensures
        fields(" - 0 1"@) == seq![seq!['-'], seq!['0'], seq!['1']],
        is_space(" - 0 1"@[0]),
        " - 0 1"@.len() == 6,
{
    reveal_strlit(" - 0 1");
    let space = seq![' '];
    let one = seq!['1'];
    let zero = seq!['0'];
    let dash = seq!['-'];
    let none = Seq::<char>::empty();
    assert(fields(none) == Seq::<Seq<char>>::empty()) by {
        lemma_run_len_is(none, CharClass::Space, 0);
        assert(none.skip(0) == none);
        lemma_run_len_is(none, CharClass::Word, 0);
    }
    assert(!is_space('1') && !is_space('0') && !is_space('-') && is_space(' '));
    assert(fields(one) == seq![one]) by {
        lemma_fields_after_word(one, none);
        assert(one + none == one);
    }
    let t5 = zero + (space + one);
    assert(fields(t5) == seq![zero, one]) by {
        lemma_fields_after_space(one);
        lemma_fields_after_word(zero, space + one);
    }
    let t4 = dash + (space + t5);
    assert(fields(t4) == seq![dash, zero, one]) by {
        lemma_fields_after_space(t5);
        lemma_fields_after_word(dash, space + t5);
    }
    assert(fields(space + t4) == seq![dash, zero, one]) by {
        lemma_fields_after_space(t4);
    }
    assert(" - 0 1"@ =~= space + t4);
}

/// The fields of three words with single spaces between them and a text
/// behind them that begins with a space: the words, and the fields of
/// that text.
pub proof fn lemma_fields_of_three(a: Seq<char>, b: Seq<char>, c: Seq<char>, rest: Seq<char>)
    requires
        a.len() > 0,
        b.len() > 0,
        c.len() > 0,
        forall|i: int| 0 <= i < a.len() ==> !is_space(#[trigger] a[i]),
        forall|i: int| 0 <= i < b.len() ==> !is_space(#[trigger] b[i]),
        forall|i: int| 0 <= i < c.len() ==> !is_space(#[trigger] c[i]),
        rest.len() > 0,
        is_space(rest[0]),
    ensures
        fields(a + seq![' '] + b + seq![' '] + c + rest) == seq![a, b, c] + fields(rest),
{
    let space = seq![' '];
    let t3 = c + rest;
    let t2 = b + (space + t3);
    let t1 = a + (space + t2);
    assert(fields(t3) == seq![c] + fields(rest)) by {
        lemma_fields_after_word(c, rest);
    }
    assert(fields(t2) == seq![b] + fields(t3)) by {
        lemma_fields_after_space(t3);
        lemma_fields_after_word(b, space + t3);
    }
    assert(fields(t1) == seq![a] + fields(t2)) by {
        lemma_fields_after_space(t2);
        lemma_fields_after_word(a, space + t2);
    }
    assert(a + space + b + space + c + rest =~= t1);
    assert(seq![a] + (seq![b] + (seq![c] + fields(rest))) =~= seq![a, b, c] + fields(rest));
}

/// The fields of a corrected position string: the board and the turn of
/// the reply, the castling field that the home squares allow, and then
/// `-`, `0` and `1`.
pub proof fn law_corrected_fields(fen: Seq<char>)
    requires
        fields(fen).len() >= 3,
        split_on(fields(fen)[0], '/').len() == 8,
    ensures
        fields(corrected_fen(fen)) == seq![
            fields(fen)[0],
            fields(fen)[1],
            castling_field(
                expand_rank(split_on(fields(fen)[0], '/')[7]),
                expand_rank(split_on(fields(fen)[0], '/')[0]),
            ),
            seq!['-'],
            seq!['0'],
            seq!['1'],
        ],
{
    let board = fields(fen)[0];
    let turn = fields(fen)[1];
    let ranks = split_on(board, '/');
    let white_back = expand_rank(ranks[7]);
    let black_back = expand_rank(ranks[0]);
    let castling = castling_field(white_back, black_back);
    lemma_fields_are_words(fen, 0);
    lemma_fields_are_words(fen, 1);
    lemma_fixed_fields();
    assert(castling.len() > 0 && forall|i: int|
        0 <= i < castling.len() ==> !is_space(#[trigger] castling[i])) by {
        let flags = castling_flags(white_back, black_back);
        assert(!is_space('K') && !is_space('Q') && !is_space('k') && !is_space('q') && !is_space(
            '-',
        ));
        assert forall|i: int| 0 <= i < flags.len() implies flags[i] == 'K' || flags[i] == 'Q'
            || flags[i] == 'k' || flags[i] == 'q' by {}
    }
    assert(" "@ == seq![' ']) by {
        reveal_strlit(" ");
        assert(" "@ =~= seq![' ']);
    }
    lemma_fields_of_three(board, turn, castling, " - 0 1"@);
    assert(seq![board, turn, castling] + seq![seq!['-'], seq!['0'], seq!['1']] =~= seq![
        board,
        turn,
        castling,
        seq!['-'],
        seq!['0'],
        seq!['1'],
    ]);
}

} // verus!
