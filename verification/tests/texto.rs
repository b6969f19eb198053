use quickshift::numeros::{escribir_entero, escribir_natural, leer_i32, leer_usize};
use quickshift::texto::{
    contiene_texto, empieza_con, iguales, juntar_con_espacio, partir, recortar, reemplazar,
    separar_palabras, Separador,
};

#[test]
fn recorta_espacios_unicode() {
    assert_eq!(recortar("  hola mundo \t\n"), "hola mundo");
    assert_eq!(recortar("\u{3000}x\u{a0}"), "x");
    assert_eq!(recortar("   "), "");
    assert_eq!(recortar(""), "");
}

#[test]
fn parte_como_split() {
    assert_eq!(partir("a,b,,c", &Separador::Coma), vec!["a", "b", "", "c"]);
    assert_eq!(partir("", &Separador::Coma), vec![""]);
    assert_eq!(partir("LU 08:30;MI 10:00", &Separador::ComaOPuntoYComa), vec!["LU 08:30", "MI 10:00"]);
    assert_eq!(partir("CIT3313-1", &Separador::Guion), vec!["CIT3313", "1"]);
}

#[test]
fn palabras_como_split_whitespace() {
    assert_eq!(separar_palabras("  LU MI  08:30 "), vec!["LU", "MI", "08:30"]);
    assert!(separar_palabras("   ").is_empty());
}

#[test]
fn reemplaza_caracteres() {
    assert_eq!(reemplazar("78,5%", '%', ""), "78,5");
    assert_eq!(reemplazar("78,5", ',', "."), "78.5");
    assert_eq!(reemplazar("1,234,567", ',', ""), "1234567");
}

#[test]
fn busca_subcadenas() {
    assert!(contiene_texto("codigo ramo", "codigo"));
    assert!(contiene_texto("est.aprobados", "aprob"));
    assert!(!contiene_texto("total", "totales"));
    assert!(contiene_texto("x", ""));
}

#[test]
fn compara_textos() {
    assert!(iguales("CIT3313", "CIT3313"));
    assert!(!iguales("CIT3313", "CIT331"));
    assert!(empieza_con("CIT3313", "CIT33"));
    assert!(!empieza_con("CIT", "CIT33"));
    assert_eq!(juntar_con_espacio("LU", "08:30"), "LU 08:30");
}

#[test]
fn lee_enteros_como_from_str() {
    assert_eq!(leer_i32("42"), Some(42));
    assert_eq!(leer_i32("-7"), Some(-7));
    assert_eq!(leer_i32("+5"), Some(5));
    assert_eq!(leer_i32(""), None);
    assert_eq!(leer_i32("+"), None);
    assert_eq!(leer_i32("-"), None);
    assert_eq!(leer_i32(" 1"), None);
    assert_eq!(leer_i32("2147483647"), Some(i32::MAX));
    assert_eq!(leer_i32("2147483648"), None);
    assert_eq!(leer_i32("-2147483648"), Some(i32::MIN));
    assert_eq!(leer_i32("12a"), None);
    assert_eq!(leer_usize("+3"), Some(3));
    assert_eq!(leer_usize("-0"), None);
    assert_eq!(leer_usize("007"), Some(7));
}

#[test]
fn escribe_enteros_como_to_string() {
    assert_eq!(escribir_entero(0), "0");
    assert_eq!(escribir_entero(-45), "-45");
    assert_eq!(escribir_entero(i32::MIN), i32::MIN.to_string());
    assert_eq!(escribir_natural(1234567890), "1234567890");
    for v in [-1000, -1, 7, 99, 100, 65535] {
        assert_eq!(leer_i32(&escribir_entero(v)), Some(v));
    }
}
