use reqlang::diagnostics::{Diagnoser, Diagnosis, DiagnosisPosition, DiagnosisRange, DiagnosisSeverity};
use reqlang::span::Spanned;
use reqlang::str_idxpos::{index_to_position, position_to_index};

type StringS = Spanned<String>;

#[test]
fn span_it_works() {
    let spanned_string: StringS = (String::from("test"), 10..15);

    assert_eq!(spanned_string, (String::from("test"), 10..15));
}

#[test]
fn it_should_convert_index_to_position() {
    let source = "let a = 123;\nlet b = 456;";
    let index = 17usize;
    let expected_position = (1, 4);
    assert_eq!(expected_position, index_to_position(source, index));
}

#[test]
fn it_should_convert_position_to_index() {
    let source = "let a = 123;\nlet b = 456;";
    let position = (1, 4);
    assert_eq!(17usize, position_to_index(source, position));
}

#[test]
fn it_should_convert_position_to_index_and_back() {
    let source = "let a = 123;\nlet b = 456;";
    let position = (1, 4);
    let actual_index = position_to_index(source, position);
    assert_eq!(position, index_to_position(source, actual_index));
}

#[test]
fn it_should_convert_position_to_index_and_back_b() {
    let source = "let a = 123;\n{\n    let b = 456;\n}";
    let position = (2, 12);
    let actual_index = position_to_index(source, position);
    assert_eq!(position, index_to_position(source, actual_index));
}

#[test]
fn it_should_convert_position_to_index_b() {
    let source = "let a = 123;\n{\n    let b = 456;\n}";
    assert_eq!(27, position_to_index(source, (2, 12)));
}

#[test]
fn it_should_convert_position_to_index_c() {
    let source = "let a = 123;\nlet b = 456;\nlet c = 789;";
    assert_eq!(34, position_to_index(source, (2, 8)));
}

#[test]
fn it_should_convert_position_to_index_d() {
    let source = "let a = 123;\nlet b = 456;\nlet c = 789;\nlet d = 000;";
    assert_eq!(47, position_to_index(source, (3, 8)));
}

#[test]
fn it_should_convert_position_to_index_e() {
    let source = "let a = 123;\nlet b = 456;\nlet c = 789;\nlet d = 000;\nlet e = 999;";
    assert_eq!(60, position_to_index(source, (4, 8)));
}

#[test]
fn it_should_convert_position_to_index_f() {
    let source = "let a = 123;\nlet b = 456;\nlet c = 789;\nlet d = 000;\nlet e = 999;\n";
    assert_eq!(60, position_to_index(source, (4, 8)));
}

#[test]
fn position_past_the_last_line_is_one_past_the_end() {
    let source = "ab\n";
    assert_eq!(3, position_to_index(source, (1, 0)));
    assert_eq!(4, position_to_index(source, (2, 0)));
    assert_eq!(6, position_to_index(source, (5, 2)));
}

#[test]
fn index_to_position_roundtrip_on_every_index() {
    let source = "one\ntwo\r\n\nthree";
    for i in 0..=source.len() {
        let p = index_to_position(source, i);
        assert_eq!(i, position_to_index(source, p));
    }
}

#[test]
fn lib_it_works() {
    let source = String::from("");

    assert_eq!(
        vec![Diagnosis {
            range: DiagnosisRange {
                start: DiagnosisPosition { line: 0, character: 0 },
                end: DiagnosisPosition { line: 0, character: 0 },
            },
            severity: Some(DiagnosisSeverity::error()),
            message: String::from("ParseError: Request file is an empty file"),
            ..Default::default()
        }],
        Diagnoser::get_diagnostics(&source, None)
    );
}

#[test]
fn diagnosis_positions_count_line_feeds() {
    let source = "ab\r\ncd\nef";
    assert_eq!(DiagnosisPosition::new(0, 0), Diagnoser::get_position(source, 0));
    assert_eq!(DiagnosisPosition::new(0, 3), Diagnoser::get_position(source, 3));
    assert_eq!(DiagnosisPosition::new(1, 0), Diagnoser::get_position(source, 4));
    assert_eq!(DiagnosisPosition::new(1, 1), Diagnoser::get_position(source, 5));
    assert_eq!(DiagnosisPosition::new(2, 0), Diagnoser::get_position(source, 7));
    assert_eq!(DiagnosisPosition::new(2, 2), Diagnoser::get_position(source, 9));
}

#[test]
fn diagnosis_position_after_config_fence() {
    let source = "```%config\n[envs]\n```\n";
    assert_eq!(DiagnosisPosition::new(1, 0), Diagnoser::get_position(source, 11));
    assert_eq!(
        DiagnosisRange::new(DiagnosisPosition::new(1, 0), DiagnosisPosition::new(1, 6)),
        Diagnoser::get_range(source, &(11..17))
    );
}

#[test]
fn missing_request_diagnosis() {
    let source = "no blocks here";
    let diagnoses = Diagnoser::get_diagnostics(source, None);
    assert_eq!(1, diagnoses.len());
    assert_eq!("ParseError: Request file requires a request be defined", diagnoses[0].message);
    assert_eq!(DiagnosisRange::new(DiagnosisPosition::new(0, 0), DiagnosisPosition::new(0, 0)), diagnoses[0].range);
}

#[test]
fn position_index_adds_line_lengths_with_their_line_feeds() {
    let source = "a\r\nbc\n\ndef";
    // pieces between line feeds: "a\r", "bc", "", "def"
    assert_eq!(0, position_to_index(source, (0, 0)));
    assert_eq!(3 + 1, position_to_index(source, (1, 1)));
    assert_eq!(3 + 3, position_to_index(source, (2, 0)));
    assert_eq!(3 + 3 + 1 + 2, position_to_index(source, (3, 2)));
}
