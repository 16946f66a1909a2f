use zugzwang::vision::parse_move_response;

#[test]
fn test_parse_move_response_valid() {
    let response = "MOVE: E2 to E4\nEVAL: equal\nWHY: Controls the center.";
    let result = parse_move_response(response).unwrap();
    assert_eq!(result.best_move, "E2 to E4");
    assert_eq!(result.evaluation, "equal");
    assert_eq!(result.reasoning, "Controls the center.");
}

#[test]
fn test_parse_move_response_with_extra_whitespace() {
    let response =
        "  MOVE:   Knight F3 to G5  \n  EVAL:  slight advantage \n WHY:  Forks the queen and rook.  ";
    let result = parse_move_response(response).unwrap();
    assert_eq!(result.best_move, "Knight F3 to G5");
    assert_eq!(result.evaluation, "slight advantage");
    assert_eq!(result.reasoning, "Forks the queen and rook.");
}

#[test]
fn test_parse_move_response_missing_optional_fields() {
    let response = "MOVE: Castle kingside";
    let result = parse_move_response(response).unwrap();
    assert_eq!(result.best_move, "Castle kingside");
    assert_eq!(result.evaluation, "unknown");
    assert_eq!(result.reasoning, "No explanation provided");
}

#[test]
fn test_parse_move_response_missing_move_fails() {
    let response = "EVAL: winning\nWHY: Because reasons.";
    let result = parse_move_response(response);
    assert!(result.is_err());
    assert!(result.unwrap_err().message().contains("missing MOVE"));
}

#[test]
fn missing_move_message_quotes_the_reply() {
    let error = parse_move_response("no tags here").unwrap_err();
    assert_eq!(error.response, "no tags here");
    assert_eq!(
        error.message(),
        "LLM response missing MOVE line. Response was: no tags here"
    );
}

#[test]
fn last_tagged_line_counts() {
    let result = parse_move_response("MOVE: a\nMOVE: b\nEVAL: x\nWHY: y\nEVAL: z").unwrap();
    assert_eq!(result.best_move, "b");
    assert_eq!(result.evaluation, "z");
    assert_eq!(result.reasoning, "y");
}

#[test]
fn windows_line_ends_and_blank_lines() {
    let result = parse_move_response("\r\nMOVE: E2 to E4\r\n\r\nEVAL: equal\r\nWHY: ok\r\n").unwrap();
    assert_eq!(result.best_move, "E2 to E4");
    assert_eq!(result.evaluation, "equal");
    assert_eq!(result.reasoning, "ok");
}

#[test]
fn tag_must_start_the_line() {
    assert!(parse_move_response("My MOVE: E2 to E4").is_err());
    assert!(parse_move_response("move: E2 to E4").is_err());
    assert!(parse_move_response("MOVE : E2 to E4").is_err());
    let result = parse_move_response("MOVE:").unwrap();
    assert_eq!(result.best_move, "");
    let result = parse_move_response("\u{3000}MOVE:\u{a0}Qh5\u{2003}").unwrap();
    assert_eq!(result.best_move, "Qh5");
}

#[test]
fn carriage_return_alone_ends_no_line() {
    let result = parse_move_response("MOVE: a\rEVAL: b").unwrap();
    assert_eq!(result.best_move, "a\rEVAL: b");
    assert_eq!(result.evaluation, "unknown");
}

#[test]
fn reply_is_read_as_the_standard_library_would() {
    let replies = [
        "MOVE: E2 to E4\nEVAL: equal\nWHY: Controls the center.",
        "WHY: x\n\n  MOVE:\tNf3 \nEVAL:",
        "EVAL: winning\n MOVE: 0-0 \n",
        "MOVE:MOVE: twice",
    ];
    for reply in replies {
        let mut best_move = None;
        let mut evaluation = None;
        let mut reasoning = None;
        for line in reply.lines() {
            let line = line.trim();
            if let Some(rest) = line.strip_prefix("MOVE:") {
                best_move = Some(rest.trim().to_string());
            } else if let Some(rest) = line.strip_prefix("EVAL:") {
                evaluation = Some(rest.trim().to_string());
            } else if let Some(rest) = line.strip_prefix("WHY:") {
                reasoning = Some(rest.trim().to_string());
            }
        }
        let parsed = parse_move_response(reply).unwrap();
        assert_eq!(Some(parsed.best_move), best_move);
        assert_eq!(parsed.evaluation, evaluation.unwrap_or(String::from("unknown")));
        assert_eq!(
            parsed.reasoning,
            reasoning.unwrap_or(String::from("No explanation provided"))
        );
    }
}
