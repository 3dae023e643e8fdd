use g360_db_ventas::texto::{
    buscar, cortar_bytes, leer_i32, leer_natural, partir, partir_una, recortar, recortar_car,
    reemplazar, rellenar, resto_tras_ultimo, separar_lineas, separar_palabras, texto_ancho,
    texto_i64, texto_u64, unir,
};

#[test]
fn trozos_de_texto() {
    assert_eq!(recortar("\u{a0} a b\t\n"), "a b");
    assert_eq!(recortar_car("\"\"a\"b\"", '"'), "a\"b");
    assert_eq!(buscar("abcabc", "ca"), Some(2));
    assert_eq!(buscar("abc", "x"), None);
    assert_eq!(reemplazar("aaa", "aa", "b"), "ba");
    assert_eq!(partir("a,,b", ','), vec!["a", "", "b"]);
    assert_eq!(partir("", ','), vec![""]);
    assert_eq!(unir(&partir("a,b", ','), "; "), "a; b");
    assert_eq!(partir_una("a=b=c", '='), Some(("a".to_string(), "b=c".to_string())));
    assert_eq!(partir_una("a", '='), None);
    assert_eq!(resto_tras_ultimo("a/b/c", '/'), "c");
    assert_eq!(separar_palabras("  a \t b\u{3000}c "), vec!["a", "b", "c"]);
    assert_eq!(separar_lineas("a\r\nb\n\nc"), vec!["a", "b", "", "c"]);
}

#[test]
fn cortes_por_bytes() {
    assert_eq!(cortar_bytes("a\u{f1}b", 0, 3), Some("a\u{f1}".to_string()));
    assert_eq!(cortar_bytes("a\u{f1}b", 0, 2), None);
    assert_eq!(cortar_bytes("ab", 1, 5), None);
}

#[test]
fn numeros_como_texto() {
    assert_eq!(texto_u64(u64::MAX), "18446744073709551615");
    assert_eq!(texto_i64(i64::MIN), "-9223372036854775808");
    assert_eq!(texto_ancho(7, 3), "007");
    assert_eq!(texto_ancho(1234, 3), "1234");
    assert_eq!(rellenar("7", 3, 'x'), "xx7");
    assert_eq!(leer_natural("+5", 10), Some(5));
    assert_eq!(leer_natural("11", 10), None);
    assert_eq!(leer_natural("-1", 10), None);
    assert_eq!(leer_natural("", 10), None);
    assert_eq!(leer_i32("-2147483648"), Some(i32::MIN));
    assert_eq!(leer_i32("2147483648"), None);
    assert_eq!(leer_i32("1x"), None);
}
