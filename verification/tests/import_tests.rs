use shuaforge_core::ai::extract_chat_content;
use shuaforge_core::ai_import::{
    ai_import_source, csv_import_text, extract_json_object, validate_ai_import_problems,
    workbook_text, AiImportSource, WorkbookSheet,
};
use shuaforge_core::problem::{Problem, ProblemState, ProblemType};

// The reply's JSON object is read into problems by the caller; the problem
// below is the one the object describes.
#[test]
fn parses_chat_completion_json_problem_payload() {
    let response = r#"{
            "choices": [{"message": {"content": "{\"problems\":[{\"id\":\"p1\",\"prompt\":\"题干\\nA. 甲\\nB. 乙\",\"answer\":\"A\",\"explanation\":\"\",\"tags\":[\"经济学\"],\"problem_type\":\"single_choice\"}]}"}}]
        }"#;
    let content = extract_chat_content(response).expect("chat content");
    let object = extract_json_object(&content).expect("json object");
    assert!(object.starts_with("{\"problems\":[{\"id\":\"p1\""));

    let problem = Problem {
        id: "p1".into(),
        prompt: "题干\nA. 甲\nB. 乙".into(),
        answer: "A".into(),
        explanation: String::new(),
        tags: vec!["经济学".into()],
        problem_type: Some(ProblemType::SingleChoice),
        deck_name: None,
        deck_info: None,
        images: vec![],
        state: ProblemState::default(),
    };
    let problems = validate_ai_import_problems(vec![problem]).expect("parse response");

    assert_eq!(problems.len(), 1);
    assert_eq!(problems[0].id, "p1");
    assert!(problems[0].tags.contains(&"AI导入".into()));
}

#[test]
fn ai_import_sources_follow_the_extension() {
    assert_eq!(ai_import_source(Some("CSV")), Ok(AiImportSource::Csv));
    assert_eq!(ai_import_source(Some("xlsx")), Ok(AiImportSource::Xlsx));
    assert_eq!(ai_import_source(Some("Pdf")), Ok(AiImportSource::Pdf));
    assert_eq!(
        ai_import_source(Some("docx")),
        Err("AI 动态导入目前仅支持 .csv / .xlsx / .pdf".to_owned())
    );
    assert!(ai_import_source(None).is_err());
}

#[test]
fn csv_import_text_loses_leading_byte_order_marks() {
    assert_eq!(csv_import_text("\u{feff}\u{feff}id,prompt\u{feff}"), "id,prompt\u{feff}");
    assert_eq!(csv_import_text("id"), "id");
}

#[test]
fn workbook_text_lists_sheets_and_rows() {
    let sheets = vec![
        WorkbookSheet {
            name: "题库".into(),
            rows: vec![
                vec!["题干".into(), "答案".into()],
                vec!["第一行\n第二行\t尾".into(), "A".into()],
            ],
        },
        WorkbookSheet { name: "空表".into(), rows: vec![] },
    ];
    assert_eq!(
        workbook_text(&sheets),
        "# Sheet: 题库\n题干\t答案\n第一行 第二行 尾\tA\n\n# Sheet: 空表\n\n"
    );
    assert_eq!(workbook_text(&[]), "");
}
