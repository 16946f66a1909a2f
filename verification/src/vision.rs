//! Talking to the vision model: the instructions it is given, the request
//! that carries them with the image, and what is read out of its reply.

use crate::text::{
    chars_of, copy_range, split_at_char, split_on, starts_with, string_of, trim, trimmed, views,
};
use crate::PlayerSide;
use base64::engine::general_purpose::STANDARD;
use base64::Engine;
use vstd::prelude::*;
use vstd::string::*;

verus! {

/// The model that requests are addressed to.
pub const MODEL: &'static str = "gpt-4o";

/// How many tokens a reply to a position request may take.
pub const FEN_MAX_TOKENS: u32 = 100;

/// How many tokens a reply to a move request may take.
pub const MOVE_MAX_TOKENS: u32 = 200;

/// A chat request to the vision model.
#[derive(Debug)]
pub struct ChatRequest {
    pub model: String,
    pub messages: Vec<ChatMessage>,
    pub max_tokens: u32,
}

/// One message of a chat request.
#[derive(Debug)]
pub struct ChatMessage {
    pub role: String,
    pub content: Vec<ContentPart>,
}

/// One part of a message: text, or a reference to an image.
#[derive(Debug)]
pub enum ContentPart {
    Text { text: String },
    ImageUrl { image_url: ImageUrlDetail },
}

/// An image given as a URL, and how closely the model is to look at it.
#[derive(Debug)]
pub struct ImageUrlDetail {
    pub url: String,
    pub detail: String,
}

/// What the vision model recommends for a position.
#[derive(Debug, Clone)]
pub struct MoveRecommendation {
    /// The move, in readable form.
    pub best_move: String,
    /// Why the move is good.
    pub reasoning: String,
    /// How the position stands.
    pub evaluation: String,
}

/// A reply without a move in it.
#[derive(Debug)]
pub struct MissingMove {
    /// The reply as it was received.
    pub response: String,
}

/// Which colour's pieces are at the bottom of the image, as the position
/// prompt says it.
pub open spec fn fen_orientation(side: PlayerSide) -> Seq<char> {
    match side {
        PlayerSide::White => "White pieces are at the bottom of the image"@,
        PlayerSide::Black => "Black pieces are at the bottom of the image"@,
    }
}

/// The side-to-move character of a side.
pub open spec fn turn_text(side: PlayerSide) -> Seq<char> {
    match side {
        PlayerSide::White => "w"@,
        PlayerSide::Black => "b"@,
    }
}

/// The instructions for reading a position off the image.
pub open spec fn fen_prompt_text(side: PlayerSide) -> Seq<char> {
    "Analyze this chessboard image. Output ONLY the FEN string.\n\nRules:\n- Output ONLY the FEN, nothing else (no explanation, no markdown, no quotes)\n- "@
        + fen_orientation(side)
        + "\n- Use standard FEN: uppercase = White (KQRBNP), lowercase = Black (kqrbnp)\n- Numbers represent consecutive empty squares\n- Rows separated by / (starting from rank 8 at the top of the board)\n- Append: "@
        + turn_text(side)
        + " KQkq - 0 1\n\nExample output for starting position:\nrnbqkbnr/pppppppp/8/8/4P3/8/PPPP1PPP/RNBQKBNR "@
        + turn_text(side) + " KQkq - 0 1"@
}

/// The name of a side's colour.
pub open spec fn colour_text(side: PlayerSide) -> Seq<char> {
    match side {
        PlayerSide::White => "White"@,
        PlayerSide::Black => "Black"@,
    }
}

/// Which colour's pieces are at the bottom of the image, as the move
/// prompt says it.
pub open spec fn move_orientation(side: PlayerSide) -> Seq<char> {
    match side {
        PlayerSide::White => "Your pieces (White) are at the bottom of the image"@,
        PlayerSide::Black => "Your pieces (Black) are at the bottom of the image"@,
    }
}

/// The instructions for recommending a move.
pub open spec fn move_prompt_text(side: PlayerSide) -> Seq<char> {
    "You are a chess grandmaster analyzing this board position. You are playing as "@
        + colour_text(side) + ".\n\n"@ + move_orientation(side)
        + ".\n\nAnalyze the position and recommend the best move. Consider:\n- Tactical opportunities (captures, checks, threats)\n- Positional factors (piece activity, pawn structure, king safety)\n- Strategic plans\n\nRespond in EXACTLY this format (3 lines, no extra text):\nMOVE: [your move in format like \"E2 to E4\" or \"Knight F3 to G5\" or \"Castle kingside\"]\nEVAL: [one of: winning, clear advantage, slight advantage, equal, slight disadvantage, clear disadvantage, losing]\nWHY: [one brief sentence explaining the move]\n\nExample response:\nMOVE: E2 to E4\nEVAL: equal\nWHY: Controls the center and opens lines for the bishop and queen."@
}

/// Whether `request` is the one message from the user that holds `prompt`
/// and then the image `base64_image` as a JPEG data URL, to be looked at in
/// high detail, with replies limited to `max_tokens`.
pub open spec fn is_vision_request(
    request: ChatRequest,
    base64_image: Seq<char>,
    prompt: Seq<char>,
    max_tokens: u32,
) -> bool {
    &&& request.model@ == MODEL@
    &&& request.max_tokens == max_tokens
    &&& request.messages@.len() == 1
    &&& request.messages@[0].role@ == "user"@
    &&& request.messages@[0].content@.len() == 2
    &&& request.messages@[0].content@[0] matches ContentPart::Text { text }
    &&& text@ == prompt
    &&& request.messages@[0].content@[1] matches ContentPart::ImageUrl { image_url }
    &&& image_url.url@ == "data:image/jpeg;base64,"@ + base64_image
    &&& image_url.detail@ == "high"@
}

/// The character that stands for the six-bit value `v` in the standard
/// base64 alphabet.
pub open spec fn base64_symbol(v: int) -> char {
    if v < 26 {
        (0x41 + v) as char
    } else if v < 52 {
        (0x61 + v - 26) as char
    } else if v < 62 {
        (0x30 + v - 52) as char
    } else if v == 62 {
        '+'
    } else {
        '/'
    }
}

/// `data` in standard base64 with padding: every three bytes become four
/// symbols, and a last group of one or two bytes is filled up with `=`.
pub open spec fn base64_text(data: Seq<u8>) -> Seq<char>
    decreases data.len(),
{
    if data.len() == 0 {
        Seq::empty()
    } else if data.len() == 1 {
        let a = data[0] as int;
        seq![base64_symbol(a / 4), base64_symbol((a % 4) * 16), '=', '=']
    } else if data.len() == 2 {
        let a = data[0] as int;
        let b = data[1] as int;
        seq![
            base64_symbol(a / 4),
            base64_symbol((a % 4) * 16 + b / 16),
            base64_symbol((b % 16) * 4),
            '=',
        ]
    } else {
        let a = data[0] as int;
        let b = data[1] as int;
        let c = data[2] as int;
        seq![
            base64_symbol(a / 4),
            base64_symbol((a % 4) * 16 + b / 16),
            base64_symbol((b % 16) * 4 + c / 64),
            base64_symbol(c % 64),
        ] + base64_text(data.skip(3))
    }
}

/// The value behind `tag` in the last line that begins with it, both the
/// line and the value without white space around them.
pub open spec fn tagged_value(lines: Seq<Seq<char>>, tag: Seq<char>) -> Option<Seq<char>>
    decreases lines.len(),
{
    if lines.len() == 0 {
        None
    } else {
        let line = trim(lines.last());
        if tag.is_prefix_of(line) {
            Some(trim(line.skip(tag.len() as int)))
        } else {
            tagged_value(lines.drop_last(), tag)
        }
    }
}

/// The value behind `tag` in `response`, line by line.
pub open spec fn reply_value(response: Seq<char>, tag: Seq<char>) -> Option<Seq<char>> {
    tagged_value(split_on(response, '\n'), tag)
}

/// `value`, or `fallback` where there is none.
pub open spec fn value_or(value: Option<Seq<char>>, fallback: Seq<char>) -> Seq<char> {
    match value {
        Some(text) => text,
        None => fallback,
    }
}

/// The message of a reply without a move.
pub open spec fn missing_move_text(response: Seq<char>) -> Seq<char> {
    "LLM response missing MOVE line. Response was: "@ + response
}

impl MissingMove {
    /// The message of this error.
    pub fn message(&self) -> (text: String)
        ensures
            text@ == missing_move_text(self.response@),
    {
        let mut text = "LLM response missing MOVE line. Response was: ".to_string();
        text.append(self.response.as_str());
        text
    }
}

/// Calls `encode` of the `base64` crate's `STANDARD` engine: the standard
/// alphabet, with padding. The call panics where the length of the result
/// does not fit in `usize`, so such inputs are left out.
#[verifier::external_body]
fn base64_of(data: &[u8]) -> (text: String)
    requires
        data@.len() / 3 * 4 + 4 <= usize::MAX,
    ensures
        text@ == base64_text(data@),
{
    STANDARD.encode(data)
}

/// The instructions for reading a position off the image, for a player of
/// the given side.
pub fn build_fen_prompt(player_side: PlayerSide) -> (prompt: String)
    ensures
        prompt@ == fen_prompt_text(player_side),
{
    let (orientation, turn) = match player_side {
        PlayerSide::White => ("White pieces are at the bottom of the image", "w"),
        PlayerSide::Black => ("Black pieces are at the bottom of the image", "b"),
    };
    let mut prompt =
        "Analyze this chessboard image. Output ONLY the FEN string.\n\nRules:\n- Output ONLY the FEN, nothing else (no explanation, no markdown, no quotes)\n- ".to_string();
    prompt.append(orientation);
    prompt.append(
        "\n- Use standard FEN: uppercase = White (KQRBNP), lowercase = Black (kqrbnp)\n- Numbers represent consecutive empty squares\n- Rows separated by / (starting from rank 8 at the top of the board)\n- Append: ",
    );
    prompt.append(turn);
    prompt.append(
        " KQkq - 0 1\n\nExample output for starting position:\nrnbqkbnr/pppppppp/8/8/4P3/8/PPPP1PPP/RNBQKBNR ",
    );
    prompt.append(turn);
    prompt.append(" KQkq - 0 1");
    prompt
}

/// The instructions for recommending a move, for a player of the given
/// side.
pub fn build_move_prompt(player_side: PlayerSide) -> (prompt: String)
    ensures
        prompt@ == move_prompt_text(player_side),
{
    let (colour, orientation) = match player_side {
        PlayerSide::White => ("White", "Your pieces (White) are at the bottom of the image"),
        PlayerSide::Black => ("Black", "Your pieces (Black) are at the bottom of the image"),
    };
    let mut prompt =
        "You are a chess grandmaster analyzing this board position. You are playing as ".to_string();
    prompt.append(colour);
    prompt.append(".\n\n");
    prompt.append(orientation);
    prompt.append(
        ".\n\nAnalyze the position and recommend the best move. Consider:\n- Tactical opportunities (captures, checks, threats)\n- Positional factors (piece activity, pawn structure, king safety)\n- Strategic plans\n\nRespond in EXACTLY this format (3 lines, no extra text):\nMOVE: [your move in format like \"E2 to E4\" or \"Knight F3 to G5\" or \"Castle kingside\"]\nEVAL: [one of: winning, clear advantage, slight advantage, equal, slight disadvantage, clear disadvantage, losing]\nWHY: [one brief sentence explaining the move]\n\nExample response:\nMOVE: E2 to E4\nEVAL: equal\nWHY: Controls the center and opens lines for the bishop and queen.",
    );
    prompt
}

/// The request that carries `prompt` and the image, with replies limited
/// to `max_tokens`.
fn build_request(base64_image: &str, prompt: &str, max_tokens: u32) -> (request: ChatRequest)
    ensures
        is_vision_request(request, base64_image@, prompt@, max_tokens),
{
    let mut url = "data:image/jpeg;base64,".to_string();
    url.append(base64_image);
    let mut content: Vec<ContentPart> = Vec::new();
    content.push(ContentPart::Text { text: prompt.to_string() });
    content.push(
        ContentPart::ImageUrl { image_url: ImageUrlDetail { url, detail: "high".to_string() } },
    );
    let mut messages: Vec<ChatMessage> = Vec::new();
    messages.push(ChatMessage { role: "user".to_string(), content });
    ChatRequest { model: MODEL.to_string(), messages, max_tokens }
}

/// The request for a move recommendation: room for a move and its reason.
pub fn build_move_request(base64_image: &str, prompt: &str) -> (request: ChatRequest)
    ensures
        is_vision_request(request, base64_image@, prompt@, MOVE_MAX_TOKENS),
{
    build_request(base64_image, prompt, MOVE_MAX_TOKENS)
}

/// The request for a position string.
pub fn build_fen_request(base64_image: &str, prompt: &str) -> (request: ChatRequest)
    ensures
        is_vision_request(request, base64_image@, prompt@, FEN_MAX_TOKENS),
{
    build_request(base64_image, prompt, FEN_MAX_TOKENS)
}

/// The request that asks for the position in `image`, for a player of the
/// given side.
pub fn fen_request_for(image: &[u8], player_side: PlayerSide) -> (request: ChatRequest)
    requires
        image@.len() / 3 * 4 + 4 <= usize::MAX,
    ensures
        is_vision_request(
            request,
            base64_text(image@),
            fen_prompt_text(player_side),
            FEN_MAX_TOKENS,
        ),
{
    let encoded = base64_of(image);
    let prompt = build_fen_prompt(player_side);
    build_fen_request(encoded.as_str(), prompt.as_str())
}

/// The request that asks for a move in the position in `image`, for a
/// player of the given side.
pub fn move_request_for(image: &[u8], player_side: PlayerSide) -> (request: ChatRequest)
    requires
        image@.len() / 3 * 4 + 4 <= usize::MAX,
    ensures
        is_vision_request(
            request,
            base64_text(image@),
            move_prompt_text(player_side),
            MOVE_MAX_TOKENS,
        ),
{
    let encoded = base64_of(image);
    let prompt = build_move_prompt(player_side);
    build_move_request(encoded.as_str(), prompt.as_str())
}

/// The value behind `tag` in the last of `lines` that begins with it.
fn find_tagged(lines: &Vec<Vec<char>>, tag: &str) -> (value: Option<Vec<char>>)
    ensures
        match value {
            Some(text) => tagged_value(views(lines@), tag@) == Some(text@),
            None => tagged_value(views(lines@), tag@) is None,
        },
{
    let tag_chars = chars_of(tag);
    let mut i: usize = lines.len();
    assert(views(lines@).take(i as int) == views(lines@));
    while i > 0
        invariant
            i <= lines.len(),
            tag_chars@ == tag@,
            tagged_value(views(lines@), tag@) == tagged_value(views(lines@).take(i as int), tag@),
        decreases i,
    {
        i -= 1;
        let line = trimmed(&lines[i]);
        proof {
            let upto = views(lines@).take(i + 1);
            assert(upto.last() == lines@[i as int]@);
            assert(upto.drop_last() == views(lines@).take(i as int));
        }
        if starts_with(&line, &tag_chars) {
            let rest = copy_range(&line, tag_chars.len(), line.len());
            assert(rest@ == line@.skip(tag@.len() as int));
            return Some(trimmed(&rest));
        }
    }
    assert(views(lines@).take(0).len() == 0);
    None
}

/// Reads a move recommendation out of a reply. Each of the lines `MOVE:`,
/// `EVAL:` and `WHY:` may stand anywhere; of several the last counts. A
/// reply without a move is an error; a missing evaluation or reason is
/// filled in.
pub fn parse_move_response(response: &str) -> (parsed: Result<MoveRecommendation, MissingMove>)
    ensures
        match parsed {
            Ok(found) => {
                &&& reply_value(response@, "MOVE:"@) == Some(found.best_move@)
                &&& found.evaluation@ == value_or(reply_value(response@, "EVAL:"@), "unknown"@)
                &&& found.reasoning@ == value_or(
                    reply_value(response@, "WHY:"@),
                    "No explanation provided"@,
                )
            },
            Err(error) => {
                &&& reply_value(response@, "MOVE:"@) is None
                &&& error.response@ == response@
            },
        },
{
    let chars = chars_of(response);
    let lines = split_at_char(&chars, '\n');
    let best_move = match find_tagged(&lines, "MOVE:") {
        Some(text) => string_of(&text),
        None => {
            return Err(MissingMove { response: string_of(&chars) });
        },
    };
    let evaluation = match find_tagged(&lines, "EVAL:") {
        Some(text) => string_of(&text),
        None => "unknown".to_string(),
    };
    let reasoning = match find_tagged(&lines, "WHY:") {
        Some(text) => string_of(&text),
        None => "No explanation provided".to_string(),
    };
    Ok(MoveRecommendation { best_move, reasoning, evaluation })
}

/// Why no reply was had from the service.
#[derive(Debug)]
pub enum ApiError {
    /// No credential was supplied.
    MissingKey,
    /// The image could not be read.
    UnreadableImage { path: String },
    /// The HTTP client could not be set up.
    ClientSetup,
    /// The request could not be sent.
    SendFailed,
    /// The service answered with a status other than success.
    Status { status: String, body: String },
    /// The answer could not be read.
    UnreadableReply,
    /// The answer holds no choice.
    NoChoice,
}

/// An `ApiError` with its strings as sequences.
pub enum ApiFault {
    MissingKey,
    UnreadableImage { path: Seq<char> },
    ClientSetup,
    SendFailed,
    Status { status: Seq<char>, body: Seq<char> },
    UnreadableReply,
    NoChoice,
}

impl View for ApiError {
    type V = ApiFault;

    open spec fn view(&self) -> ApiFault {
        match self {
            ApiError::MissingKey => ApiFault::MissingKey,
            ApiError::UnreadableImage { path } => ApiFault::UnreadableImage { path: path@ },
            ApiError::ClientSetup => ApiFault::ClientSetup,
            ApiError::SendFailed => ApiFault::SendFailed,
            ApiError::Status { status, body } => ApiFault::Status { status: status@, body: body@ },
            ApiError::UnreadableReply => ApiFault::UnreadableReply,
            ApiError::NoChoice => ApiFault::NoChoice,
        }
    }
}

/// The message of a fault.
pub open spec fn api_fault_text(fault: ApiFault) -> Seq<char> {
    match fault {
        ApiFault::MissingKey => "OPENAI_API_KEY environment variable not set"@,
        ApiFault::UnreadableImage { path } => "Failed to read image: "@ + path,
        ApiFault::ClientSetup => "Failed to create HTTP client"@,
        ApiFault::SendFailed => "Failed to send request to OpenAI"@,
        ApiFault::Status { status, body } => "OpenAI API error "@ + status + ": "@ + body,
        ApiFault::UnreadableReply => "Failed to parse OpenAI response"@,
        ApiFault::NoChoice => "No response from OpenAI"@,
    }
}

/// Whether an HTTP status code means success.
pub open spec fn is_success(code: u16) -> bool {
    200 <= code < 300
}

impl ApiError {
    /// The message of this error.
    pub fn message(&self) -> (text: String)
        ensures
            text@ == api_fault_text(self@),
    {
        match self {
            ApiError::MissingKey => "OPENAI_API_KEY environment variable not set".to_string(),
            ApiError::UnreadableImage { path } => {
                let mut text = "Failed to read image: ".to_string();
                text.append(path.as_str());
                text
            },
            ApiError::ClientSetup => "Failed to create HTTP client".to_string(),
            ApiError::SendFailed => "Failed to send request to OpenAI".to_string(),
            ApiError::Status { status, body } => {
                let mut text = "OpenAI API error ".to_string();
                text.append(status.as_str());
                text.append(": ");
                text.append(body.as_str());
                text
            },
            ApiError::UnreadableReply => "Failed to parse OpenAI response".to_string(),
            ApiError::NoChoice => "No response from OpenAI".to_string(),
        }
    }
}

/// Whether a credential for the service is at hand.
pub fn has_api_key(credential: &Option<String>) -> (present: bool)
    ensures
        present == credential.is_some(),
{
    credential.is_some()
}

/// The value of the authorization header for a credential.
pub fn bearer_token(api_key: &str) -> (header: String)
    ensures
        header@ == "Bearer "@ + api_key@,
{
    let mut header = "Bearer ".to_string();
    header.append(api_key);
    header
}

/// Passes an answer with a success status, and turns any other into an
/// error that holds the status line and the body.
pub fn check_status(code: u16, status: String, body: String) -> (checked: Result<(), ApiError>)
    ensures
        match checked {
            Ok(_) => is_success(code),
            Err(error) => !is_success(code) && error@ == (ApiFault::Status {
                status: status@,
                body: body@,
            }),
        },
{
    if 200 <= code && code < 300 {
        Ok(())
    } else {
        Err(ApiError::Status { status, body })
    }
}

/// The reply among the choices of an answer: the first, trimmed. An answer
/// without choices is an error.
pub fn first_reply(choices: &Vec<String>) -> (reply: Result<String, ApiError>)
    ensures
        match reply {
            Ok(text) => choices@.len() > 0 && text@ == trim(choices@[0]@),
            Err(error) => choices@.len() == 0 && error@ == ApiFault::NoChoice,
        },
{
    if choices.len() == 0 {
        return Err(ApiError::NoChoice);
    }
    let chars = chars_of(choices[0].as_str());
    Ok(string_of(&trimmed(&chars)))
}

} // verus!
