use ollama_client::text::eq_ignoring_ascii_case;
use ollama_client::{reports_running, RUNNING};

#[test]
fn the_exact_reply_reports_running() {
    assert_eq!(RUNNING, "Ollama is running");
    assert!(reports_running(Some("Ollama is running")));
}

#[test]
fn the_case_of_the_letters_does_not_matter() {
    assert!(reports_running(Some("ollama is running")));
    assert!(reports_running(Some("OLLAMA IS RUNNING")));
    assert!(reports_running(Some("oLLAMA Is rUNNING")));
}

#[test]
fn any_other_reply_does_not_report_running() {
    assert!(!reports_running(Some("ollama is running 2")));
    assert!(!reports_running(Some("")));
    assert!(!reports_running(Some("{\"error\":\"not found\"}")));
    assert!(!reports_running(Some("Ollama is running\n")));
    assert!(!reports_running(Some(" Ollama is running")));
    assert!(!reports_running(Some("Ollama is runnin")));
    assert!(!reports_running(Some("Ollama_is_running")));
    assert!(!reports_running(Some("Ollama is runninG!")));
}

#[test]
fn a_reply_that_could_not_be_had_does_not_report_running() {
    assert!(!reports_running(None));
}

#[test]
fn letters_beyond_ascii_are_compared_as_they_stand() {
    assert!(!reports_running(Some("Ollama ıs running")));
    assert!(!reports_running(Some("Ollama is runnıng")));
    assert!(eq_ignoring_ascii_case("Straße", "STRAßE"));
    assert!(!eq_ignoring_ascii_case("Ärger", "ärger"));
    assert!(!eq_ignoring_ascii_case("K", "\u{212a}"));
}

#[test]
fn characters_next_to_the_letters_are_not_folded() {
    assert!(!eq_ignoring_ascii_case("@", "`"));
    assert!(!eq_ignoring_ascii_case("[", "{"));
    assert!(eq_ignoring_ascii_case("AZaz09", "azAZ09"));
    assert!(eq_ignoring_ascii_case("", ""));
    assert!(!eq_ignoring_ascii_case("a", ""));
}

#[test]
fn a_text_is_taken_apart_into_its_characters() {
    assert_eq!(ollama_client::text::chars_of(""), Vec::<char>::new());
    assert_eq!(ollama_client::text::chars_of("aé你"), vec!['a', 'é', '你']);
}
