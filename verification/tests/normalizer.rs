use estacoes_manager::utils::normalizer::Normalizer;

#[test]
fn test_normalize_id() {
    assert_eq!(Normalizer::normalize_id("RFeye002300"), "2300");
    assert_eq!(Normalizer::normalize_id("MIAer-SP"), "miaer-sp");
    assert_eq!(Normalizer::normalize_id("CWSM212030"), "212030");
    assert_eq!(Normalizer::normalize_id("00123"), "123");
}

#[test]
fn test_normalize_text() {
    assert_eq!(Normalizer::normalize_text("Disponível"), "Disponivel");
    assert_eq!(Normalizer::normalize_text("São Paulo"), "Sao Paulo");
    assert_eq!(Normalizer::normalize_text("AÇÃO"), "ACAO");
}

#[test]
fn test_ids_match() {
    assert!(Normalizer::ids_match("RFeye002300", "rfeye002300"));
    assert!(Normalizer::ids_match("RFeye002300", "2300"));
    assert!(Normalizer::ids_match("MIAer-SP", "miaer-sp"));
    assert!(!Normalizer::ids_match("RFeye002300", "RFeye002301"));
}

#[test]
fn normalize_id_keeps_a_lone_zero() {
    assert_eq!(Normalizer::normalize_id("0"), "0");
    assert_eq!(Normalizer::normalize_id("000"), "0");
    assert_eq!(Normalizer::normalize_id("RFeye000"), "0");
    assert_eq!(Normalizer::normalize_id("0010"), "10");
}

#[test]
fn normalize_id_of_nothing_is_nothing() {
    assert_eq!(Normalizer::normalize_id(""), "");
    assert_eq!(Normalizer::normalize_id("RFeye"), "");
    assert_eq!(Normalizer::normalize_id("ums"), "");
}

#[test]
fn normalize_id_strips_each_prefix_in_any_case() {
    assert_eq!(Normalizer::normalize_id("rfeye0042"), "42");
    assert_eq!(Normalizer::normalize_id("RFEYE0042"), "42");
    assert_eq!(Normalizer::normalize_id("miaer-0007"), "7");
    assert_eq!(Normalizer::normalize_id("MIAER-15"), "15");
    assert_eq!(Normalizer::normalize_id("cwsm0001"), "1");
    assert_eq!(Normalizer::normalize_id("UMS300"), "300");
    assert_eq!(Normalizer::normalize_id("Ums0300"), "300");
    assert_eq!(Normalizer::normalize_id("ERMx0012"), "12");
    assert_eq!(Normalizer::normalize_id("ermX99"), "99");
}

#[test]
fn normalize_id_strips_one_prefix_only() {
    assert_eq!(Normalizer::normalize_id("RFeyeUMS12"), "rfeyeums12");
    assert_eq!(Normalizer::normalize_id("MIAer12"), "miaer12");
    assert_eq!(Normalizer::normalize_id("ERM12"), "erm12");
}

#[test]
fn normalize_id_falls_back_to_the_whole_id_in_lowercase() {
    assert_eq!(Normalizer::normalize_id("RFeye12A"), "rfeye12a");
    assert_eq!(Normalizer::normalize_id("Estação-7"), "estação-7");
    assert_eq!(Normalizer::normalize_id("ABC"), "abc");
    assert_eq!(Normalizer::normalize_id("12 34"), "12 34");
    assert_eq!(Normalizer::normalize_id("ÉRICA"), "érica");
}

#[test]
fn normalize_id_takes_only_ascii_digits_as_digits() {
    assert_eq!(Normalizer::normalize_id("RFeye٠١٢"), "rfeye٠١٢");
    assert_eq!(Normalizer::normalize_id("１２"), "１２");
}

#[test]
fn normalize_id_is_idempotent_on_numeric_ids() {
    for id in ["RFeye002300", "00123", "0", "", "CWSM212030", "ums0", "miaer-000", "7"] {
        let once = Normalizer::normalize_id(id);
        let twice = Normalizer::normalize_id(&once);
        assert_eq!(twice, once);
    }
}

#[test]
fn numeric_key_is_there_for_digits_only() {
    assert_eq!(Normalizer::numeric_key("RFeye002300"), Some("2300".to_string()));
    assert_eq!(Normalizer::numeric_key("00"), Some("0".to_string()));
    assert_eq!(Normalizer::numeric_key(""), Some(String::new()));
    assert_eq!(Normalizer::numeric_key("MIAer-SP"), None);
    assert_eq!(Normalizer::numeric_key("12a"), None);
    assert_eq!(Normalizer::numeric_key("RFeye-12"), None);
}

#[test]
fn normalize_text_maps_every_accented_letter() {
    assert_eq!(Normalizer::normalize_text("áàãâ"), "aaaa");
    assert_eq!(Normalizer::normalize_text("éèê"), "eee");
    assert_eq!(Normalizer::normalize_text("íìî"), "iii");
    assert_eq!(Normalizer::normalize_text("óòõô"), "oooo");
    assert_eq!(Normalizer::normalize_text("úùû"), "uuu");
    assert_eq!(Normalizer::normalize_text("ç"), "c");
    assert_eq!(Normalizer::normalize_text("ÁÀÃÂ"), "AAAA");
    assert_eq!(Normalizer::normalize_text("ÉÈÊ"), "EEE");
    assert_eq!(Normalizer::normalize_text("ÍÌÎ"), "III");
    assert_eq!(Normalizer::normalize_text("ÓÒÕÔ"), "OOOO");
    assert_eq!(Normalizer::normalize_text("ÚÙÛ"), "UUU");
    assert_eq!(Normalizer::normalize_text("Ç"), "C");
}

#[test]
fn normalize_text_keeps_every_other_character() {
    assert_eq!(Normalizer::normalize_text(""), "");
    assert_eq!(Normalizer::normalize_text("GR01, UO-21 x"), "GR01, UO-21 x");
    assert_eq!(Normalizer::normalize_text("ñ ü ä ë ö 日本"), "ñ ü ä ë ö 日本");
    assert_eq!(Normalizer::normalize_text("Manutenção"), "Manutencao");
    assert_eq!(Normalizer::normalize_text("Litígio"), "Litigio");
}

#[test]
fn digits_are_filtered_in_order() {
    assert_eq!(Normalizer::digits("a1b22c3"), vec!['1', '2', '2', '3']);
    assert_eq!(Normalizer::digits("none"), Vec::<char>::new());
    assert_eq!(Normalizer::digits(""), Vec::<char>::new());
    assert_eq!(Normalizer::digits("٣4"), vec!['4']);
}

#[test]
fn keys_match_when_equal_or_same_digits() {
    assert!(Normalizer::keys_match("abc", "abc"));
    assert!(Normalizer::keys_match("", ""));
    assert!(Normalizer::keys_match("estacao-12", "12"));
    assert!(Normalizer::keys_match("a1b2", "12"));
    assert!(!Normalizer::keys_match("abc", "abd"));
    assert!(!Normalizer::keys_match("abc", ""));
    assert!(!Normalizer::keys_match("x12", "x13"));
    assert!(!Normalizer::keys_match("12", "012"));
}

#[test]
fn ids_match_by_digits_behind_other_text() {
    assert!(Normalizer::ids_match("Estacao-23", "RFeye0023"));
    assert!(!Normalizer::ids_match("Estacao-0023", "RFeye0023"));
    assert!(Normalizer::ids_match("Estacao-0023", "RFeye0023B"));
    assert!(Normalizer::ids_match("abc", "ABC"));
    assert!(!Normalizer::ids_match("abc", "abd"));
}
