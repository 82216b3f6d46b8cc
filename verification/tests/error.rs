use estacoes_manager::error::AppError;

#[test]
fn each_error_has_its_message() {
    let s = |t: &str| t.to_string();
    assert_eq!(AppError::FileRead(s("x")).to_string(), "Erro ao ler arquivo: x");
    assert_eq!(AppError::JsonParse(s("x")).to_string(), "Erro ao parsear JSON: x");
    assert_eq!(AppError::CsvParse(s("x")).to_string(), "Erro ao parsear CSV: x");
    assert_eq!(AppError::InvalidStatus(s("Quebrado")).to_string(), "Status inválido: Quebrado");
    assert_eq!(
        AppError::RegionalNotFound(s("h1")).to_string(),
        "Regional não encontrada para host: h1"
    );
    assert_eq!(AppError::Discrepancy(s("d")).to_string(), "Discrepância encontrada: d");
    assert_eq!(AppError::Generic(s("")).to_string(), "Erro genérico: ");
}

#[test]
fn a_text_becomes_a_generic_error() {
    match AppError::from("falhou".to_string()) {
        AppError::Generic(t) => assert_eq!(t, "falhou"),
        other => panic!("expected a generic error, got {:?}", other),
    }
    match AppError::from("falhou") {
        AppError::Generic(t) => assert_eq!(t, "falhou"),
        other => panic!("expected a generic error, got {:?}", other),
    }
}
