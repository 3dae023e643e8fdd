use g360_db_ventas::captor::{
    es_tabla, preflight_checks, rutas_navegador, seguir_extenso, sondear, tramo, Extenso, Sondeo,
};
use g360_db_ventas::http::{
    acceso_rechazado, cabecera_galletas, es_legible, es_sesion_perdida, exp_url,
    extract_largest_table_html, fname, formulario_acceso, formulario_export, lineas_suficientes,
    parse_hidden_fields, tabla_de_pagina, url_is_login, url_sin_cache, validar_navegador,
    validate_xls, ErrorTabla, BTN_EXPORT,
};

fn pares(v: &Vec<(String, String)>) -> Vec<(&str, &str)> {
    v.iter().map(|(a, b)| (a.as_str(), b.as_str())).collect()
}

#[test]
fn tabla_mayor_de_una_pagina() {
    let html = "<table><tr><td>a</td></tr></table>\
        <TABLE class=x><TR><TH>Doc</TH><TH>Total, S/</TH></TR>\
        <tr></tr>\
        <tr><td> A&nbsp;&amp;  B </td><td>1,5</td></tr></TABLE>\
        <table><tr><td>z</td></tr><tr><td>y</td></tr></table>";
    assert_eq!(extract_largest_table_html(html), "doc,total  s/\na & b,1 5\n");
    let mezcla = "<table><tr><th>k</th><td>1</td></tr></table>";
    assert_eq!(extract_largest_table_html(mezcla), "k,1\n");
    assert_eq!(extract_largest_table_html("<p>nada</p>"), "");
    assert_eq!(extract_largest_table_html("<table><tr><td>sin cerrar</td></tr>"), "");
}

const ACCESO: &str = "<form><input type=\"hidden\" name=\"__VIEWSTATE\" id=\"a\" value=\"/wEP\" />\
    <input name=\"__EVENTVALIDATION\" value=\"\">\
    <input name=\"otro\" value=\"1\"><input value=\"2\"></form>";

#[test]
fn campos_ocultos() {
    assert!(es_legible(ACCESO));
    assert_eq!(
        pares(&parse_hidden_fields(ACCESO)),
        vec![("__VIEWSTATE", "/wEP"), ("__EVENTVALIDATION", "")]
    );
    assert!(parse_hidden_fields("<p></p>").is_empty());
}

#[test]
fn campos_que_parten_un_caracter() {
    let mut html = String::from("<input name=\"__A\" value=\"x\"");
    while html.len() < 199_999 {
        html.push('a');
    }
    html.push('\u{00f1}');
    assert!(!es_legible(&html));
    html.pop();
    html.push('>');
    html.push('\u{00f1}');
    assert!(es_legible(&html));
    assert_eq!(pares(&parse_hidden_fields(&html)), vec![("__A", "x")]);
}

#[test]
fn formularios() {
    let f = formulario_acceso(ACCESO, "ana", "x").unwrap();
    assert_eq!(
        pares(&f)[2..],
        [("txtnombre", "ana"), ("txtpass", "x"), ("Button1", "Aceptar")]
    );
    assert!(formulario_acceso("<p></p>", "ana", "x").is_none());
    let f = formulario_export(ACCESO).unwrap();
    assert_eq!(pares(&f)[2], (BTN_EXPORT, "Exportar a "));
    let perdida = format!("{ACCESO}<input id=\"txtnombre\">");
    assert!(url_is_login(&perdida));
    assert!(formulario_export(&perdida).is_none());
    assert!(formulario_export("").is_none());
}

#[test]
fn acceso_y_sesion() {
    assert!(url_is_login("<input id='txtnombre'>"));
    assert!(!url_is_login("<input name=\"txtnombre\">"));
    assert!(acceso_rechazado("http://x/login.aspx", "txtnombre txtpass"));
    assert!(!acceso_rechazado("http://x/menu.aspx", "txtnombre txtpass"));
    assert!(!acceso_rechazado("http://x/login.aspx", "txtnombre"));
    assert!(es_sesion_perdida("export: sesion perdida (login)"));
    assert!(!es_sesion_perdida("timeout"));
    assert_eq!(cabecera_galletas(" a=1;b=2 ; c=3"), "a=1; b=2; c=3");
}

#[test]
fn direcciones() {
    assert_eq!(
        exp_url("01/01/2024", "31/01/2024", "6", "ZZZZZ", "E"),
        "http://intranet.cipsa.com.pe/ESTADISTICASVENTAS/Estadistica11.aspx?valueCli=&valueVend=&valueVend2=&valueCli2=&valueSucI=&valueSucF=&accion=E&valueArtI=6&valueArtF=ZZZZZ&valueAlmI=&valueAlmF=&valueFI=01/01/2024&valueFF=31/01/2024&valueGrat=1&valueDocs=01F%2c+01B%2c+01NCR%2c+01NDB"
    );
    assert_eq!(url_sin_cache("http://x?a=1", 5), "http://x?a=1&_t=5");
    assert_eq!(url_sin_cache("http://x", 5), "http://x?_t=5");
    assert_eq!(fname("2024-01", "-s1_2"), "ventas_2024-01-s1_2.xls");
}

#[test]
fn libros_que_valen() {
    let mut ole: Vec<u8> = vec![0xD0, 0xCF, 0x11, 0xE0];
    ole.resize(600, 0);
    assert!(validate_xls(&ole, "text/html").is_ok());
    assert!(validar_navegador(&ole, "text/html").is_ok());
    let mut zip: Vec<u8> = vec![0x50, 0x4B];
    zip.resize(600, 0);
    assert!(validate_xls(&zip, "").is_ok());
    assert!(validate_xls(&[], "").is_ok());
}

#[test]
fn avisos_en_lugar_de_libros() {
    assert_eq!(
        validate_xls(b"Server ERROR", "x").unwrap_err(),
        "export devolvio HTML de error (12 bytes): server error"
    );
    assert_eq!(
        validar_navegador(b"Server ERROR", "x").unwrap_err(),
        "Export devolvio HTML de error (12 bytes, ct=x): server error"
    );
    assert!(validate_xls(&[0x45, 0x52, 0x52, 0x4F, 0x52, 0xFF], "x").unwrap_err().ends_with("error\u{fffd}"));
}

#[test]
fn paginas_en_lugar_de_libros() {
    let mut pagina = b"<?xml version>".to_vec();
    pagina.resize(600, b' ');
    let e = validate_xls(&pagina, "ct").unwrap_err();
    assert!(e.starts_with("export devolvio HTML en vez de XLS (ct=ct, 600 bytes): <?xml version>"));
    assert!(validar_navegador(&pagina, "ct").is_ok());
    pagina[1] = b'!';
    let e = validar_navegador(&pagina, "ct").unwrap_err();
    assert!(e.starts_with("Export devolvio HTML en lugar de XLS (ct=ct, 600 bytes): <!xml"));
}

#[test]
fn respuestas_sospechosas() {
    let b = vec![b'a'; 1000];
    assert_eq!(validate_xls(&b, "text/html").unwrap_err(), "respuesta sospechosa text/html 1000 bytes");
    assert_eq!(
        validar_navegador(&b, "text/html; x").unwrap_err(),
        "Respuesta sospechosa text/html con 1000 bytes, ct=text/html; x"
    );
    assert!(validate_xls(&vec![b'a'; 2048], "text/html").is_ok());
}

#[test]
fn pagina_con_el_informe() {
    assert!(matches!(tabla_de_pagina("corta"), Err(ErrorTabla::SinTabla(5))));
    let relleno = "x".repeat(5000);
    let acceso = format!("<input id=\"txtnombre\">{relleno}");
    assert!(matches!(tabla_de_pagina(&acceso), Err(ErrorTabla::SinTabla(_))));
    let vacia = format!("<table><tr><td>ab</td></tr></table>{relleno}");
    assert!(matches!(tabla_de_pagina(&vacia), Err(ErrorTabla::Vacia(3))));
    let fila = "<tr><td>0123456789</td></tr>".repeat(60);
    let llena = format!("<table>{fila}</table>{relleno}");
    match tabla_de_pagina(&llena) {
        Ok(csv) => assert_eq!(lineas_suficientes(&csv), (60, true)),
        Err(_) => panic!("la tabla tiene filas"),
    }
    assert_eq!(lineas_suficientes("a\nb\n"), (2, false));
}

#[test]
fn tramos_de_articulos() {
    let t = tramo(0, 1);
    assert_eq!((t.desde.as_str(), t.hasta.as_str(), t.sufijo.as_str()), ("6", "ZZZZZ", "-s1_2"));
    let t = tramo(2, 7);
    assert_eq!((t.desde.as_str(), t.hasta.as_str(), t.sufijo.as_str()), ("O", "ZZZZZ", "-s3_8"));
    let t = tramo(1, 3);
    assert_eq!((t.desde.as_str(), t.hasta.as_str(), t.sufijo.as_str()), (":", "ZZZZZ", "-s2_4"));
}

#[test]
fn dia_extenso() {
    assert_eq!(seguir_extenso(Extenso::Entero, Some(5001), false, false), Extenso::Listo);
    let e = seguir_extenso(Extenso::Entero, Some(5000), false, false);
    assert_eq!(e, Extenso::Parte { esquema: 0, parte: 0 });
    let e = seguir_extenso(e, Some(500), false, false);
    assert_eq!(e, Extenso::Parte { esquema: 0, parte: 1 });
    let e = seguir_extenso(e, Some(500), false, false);
    assert_eq!(e, Extenso::Unir { esquema: 0 });
    assert_eq!(seguir_extenso(e, Some(1001), false, false), Extenso::Unido);
    assert_eq!(seguir_extenso(e, None, true, true), Extenso::SinUnion);
    assert_eq!(
        seguir_extenso(e, None, true, false),
        Extenso::Parte { esquema: 1, parte: 0 }
    );
    assert_eq!(
        seguir_extenso(Extenso::Parte { esquema: 2, parte: 3 }, Some(499), false, false),
        Extenso::Fallido
    );
    assert_eq!(seguir_extenso(Extenso::Fallido, None, false, false), Extenso::Fallido);
}

#[test]
fn requisitos_del_equipo() {
    assert!(preflight_checks("a", "b", true).is_ok());
    assert!(preflight_checks("", "b", true).unwrap_err().starts_with("Faltan credenciales"));
    assert!(preflight_checks("a", "", true).unwrap_err().starts_with("Faltan credenciales"));
    assert!(preflight_checks("a", "b", false).unwrap_err().starts_with("Google Chrome no esta"));
    assert_eq!(rutas_navegador(None).len(), 2);
    assert_eq!(
        rutas_navegador(Some("C:\\L"))[2],
        "C:\\L\\Google\\Chrome\\Application\\chrome.exe"
    );
}

#[test]
fn sondeo_del_informe() {
    assert_eq!(sondear("http://x/login.aspx", "5000"), Sondeo::Entrar);
    assert_eq!(sondear("http://x", "1001"), Sondeo::Listo);
    assert_eq!(sondear("http://x", "1000"), Sondeo::Esperar);
    assert_eq!(sondear("http://x", "nada"), Sondeo::Esperar);
    assert!(es_tabla(&"\u{f1}".repeat(50)));
    assert!(!es_tabla(&"a".repeat(99)));
}
