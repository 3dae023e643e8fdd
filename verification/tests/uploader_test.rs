use g360_db_ventas::db::{
    borrado, es_grave, guardadas, migraciones, ordenes_guardado, reemplazo, verify_integrity,
    Cuentas, Orden, Reemplazo,
};
use g360_db_ventas::fecha::Fecha;
use g360_db_ventas::models::{Monto, Venta};
use g360_db_ventas::normalizer::{lz, normalize_ids, normalize_text};
use g360_db_ventas::uploader::{
    base_where, clave_verificacion, consulta_cuenta, decidir, dedup_lote, dry_run_upload, endpoint,
    fecha_corte, filtro, informe, mensaje_envio, mensaje_repetidos, mes_de_corte,
    primeros_caracteres, seguir_limpieza, seguir_purga, sin_credenciales, subida_nueva,
    test_supabase_connection, texto_mes_corte, total_de_rango, total_lotes, url_borrado,
    url_conteo, url_ids, url_purga, url_verificacion, verify_upload_result, Cuenta, Decision, Fase,
    Limpieza, Respuesta, Totales,
};

fn venta(folio: &str, articulo: &str, nombre: &str) -> Venta {
    let mut v = Venta::nuevo("a.csv", "2024-01");
    v.folio_unico = folio.to_string();
    v.id_articulo = articulo.to_string();
    v.nom_articulo = nombre.to_string();
    v
}

#[test]
fn repetidos_de_un_lote() {
    let v = dedup_lote(vec![
        venta("f1", "a", "1"),
        venta("f1", "b", "2"),
        venta("f1", "a", "3"),
        venta("f2", "a", "4"),
        venta("f1", "b", "5"),
    ]);
    let n: Vec<&str> = v.iter().map(|x| x.nom_articulo.as_str()).collect();
    assert_eq!(n, vec!["1", "2", "4"]);
    assert!(dedup_lote(vec![]).is_empty());
}

#[test]
fn credenciales_de_muestra() {
    assert!(sin_credenciales("https://TU_SUPABASE_URL", "k"));
    assert!(sin_credenciales("https://x", "TU_ANON_KEY"));
    assert!(!sin_credenciales("https://x", "k"));
    assert_eq!(endpoint("https://x"), "https://x/rest/v1/ventas");
}

fn estado(codigo: u16) -> Respuesta {
    Respuesta::Estado { codigo, estado: format!("{codigo} E"), texto: "t".to_string() }
}

#[test]
fn reintentos_de_un_envio() {
    assert!(matches!(decidir(1, estado(201)), Decision::Hecho));
    assert!(matches!(decidir(1, estado(503)), Decision::Reintentar(1000)));
    assert!(matches!(decidir(2, estado(429)), Decision::Reintentar(2000)));
    assert!(matches!(decidir(3, estado(503)), Decision::Fallar(m) if m == "Supabase 503 E: t"));
    assert!(matches!(decidir(1, estado(409)), Decision::Fallar(m) if m == "Supabase 409 E: t"));
    assert!(matches!(decidir(2, Respuesta::SinEnvio("e".to_string())), Decision::Reintentar(1000)));
    assert!(matches!(
        decidir(3, Respuesta::SinEnvio("e".to_string())),
        Decision::Fallar(m) if m == "Supabase request failed: e"
    ));
    assert!(matches!(decidir(1, Respuesta::SinLectura("e".to_string())), Decision::Reintentar(500)));
    assert!(matches!(
        decidir(3, Respuesta::SinLectura("e".to_string())),
        Decision::Fallar(m) if m == "Supabase read response failed: e"
    ));
}

#[test]
fn corte_y_condiciones() {
    let hoy = Fecha { anho: 2024, mes: 3, dia: 1 };
    assert_eq!(fecha_corte(0, hoy), None);
    assert_eq!(fecha_corte(1, hoy), Some(Fecha { anho: 2024, mes: 2, dia: 29 }));
    assert_eq!(texto_mes_corte(Fecha { anho: 2024, mes: 2, dia: 29 }), "2024-02");
    assert_eq!(base_where(None, None), "");
    assert_eq!(base_where(Some(""), None), "");
    assert_eq!(base_where(Some("s"), None), "WHERE capturado_en > 's'");
    assert_eq!(base_where(None, Some("2024-02")), "WHERE mes_ref >= '2024-02'");
    assert_eq!(
        base_where(Some("s"), Some("2024-02")),
        "WHERE capturado_en > 's' AND mes_ref >= '2024-02'"
    );
    assert_eq!(mes_de_corte(0, hoy), None);
    assert_eq!(mes_de_corte(1, hoy), Some("2024-02".to_string()));
    assert_eq!(filtro(0, hoy, None), "");
    assert_eq!(filtro(1, hoy, Some("")), "WHERE mes_ref >= '2024-02'");
    assert_eq!(
        filtro(30, hoy, Some("s")),
        "WHERE capturado_en > 's' AND mes_ref >= '2024-01'"
    );
    assert_eq!(consulta_cuenta("WHERE x"), "SELECT COUNT(*) FROM ventas WHERE x");
}

#[test]
fn purga_de_la_ventana() {
    assert_eq!(
        url_purga("https://a", None),
        "https://a/rest/v1/ventas?id=not.is.null&select=id"
    );
    assert_eq!(
        url_purga("https://a", Some("2024-02")),
        "https://a/rest/v1/ventas?mes_ref=gte.2024-02&select=id"
    );
    // Con retencion ilimitada tambien se purga antes de contar y enviar.
    let s = subida_nueva(None).seguir(Cuenta::Numero(0));
    assert_eq!(s.fase, Fase::Purga);
    assert_eq!(s.seguir(Cuenta::Numero(7)).fase, Fase::Conteo);
}

#[test]
fn limpieza_por_rondas() {
    // Mil doscientas filas antiguas: tres rondas y una peticion sin respuesta.
    let (mut e, mut borrados) = seguir_limpieza(Limpieza::Contar, 0, Cuenta::Numero(1200));
    let mut quedan = 1200u64;
    let mut rondas = 0;
    while e != Limpieza::Fin {
        let n = quedan.min(500);
        if e == Limpieza::Borrar {
            quedan -= n;
            rondas += 1;
        }
        (e, borrados) = seguir_limpieza(e, borrados, Cuenta::Numero(n));
    }
    assert_eq!((borrados, quedan, rondas), (1200, 0, 3));
    assert_eq!(seguir_limpieza(Limpieza::Contar, 0, Cuenta::Numero(0)), (Limpieza::Fin, 0));
}

#[test]
fn simulacro_y_subida() {
    let filas: Vec<_> = (0..1001).map(|i| venta(&format!("F{i}"), "1", "x")).collect();
    let simulacro = dry_run_upload(filas.len(), None);
    let mut s = subida_nueva(Some("antes"));
    s = s.seguir(Cuenta::Numero(0));
    s = s.seguir(Cuenta::Numero(filas.len() as u64));
    let mut envios = 0;
    while let Fase::Envio { off } = s.fase {
        let hasta = (off as usize + 500).min(filas.len());
        let unicas = dedup_lote(filas[off as usize..hasta].to_vec());
        s = s.seguir(Cuenta::Numero(unicas.len() as u64));
        envios += 1;
    }
    assert_eq!(s.subidas as usize, simulacro.rows_to_upload);
    assert_eq!(envios, simulacro.total_batches);
}

#[test]
fn subida_completa() {
    assert_eq!(total_lotes(0), 0);
    assert_eq!(total_lotes(500), 1);
    assert_eq!(total_lotes(501), 2);
    assert_eq!(total_lotes(u64::MAX), u64::MAX / 500 + 1);
    let s = subida_nueva(None);
    assert!(s.completa);
    let s = s.seguir(Cuenta::Numero(0));
    assert_eq!(s.fase, Fase::Purga);
    let s = s.seguir(Cuenta::Numero(7)).seguir(Cuenta::Numero(501));
    assert_eq!(s.fase, Fase::Envio { off: 0 });
    assert_eq!(s.numero_envio(), 1);
    let s = s.seguir(Cuenta::Numero(500));
    assert_eq!(s.fase, Fase::Envio { off: 500 });
    assert_eq!(s.numero_envio(), 2);
    let s = s.seguir(Cuenta::Numero(1));
    assert_eq!(s.fase, Fase::Limpieza);
    assert_eq!(s.subidas, 501);
    assert_eq!(s.seguir(Cuenta::Error).fase, Fase::Fin);
    let s = s.seguir(Cuenta::Numero(9));
    assert_eq!((s.fase, s.limpiadas), (Fase::Fin, 9));
}

#[test]
fn subida_de_lo_nuevo() {
    let s = subida_nueva(Some("2024-01-01"));
    assert!(!s.completa);
    assert_eq!(s.seguir(Cuenta::Numero(3)).fase, Fase::Fallo);
    assert_eq!(s.seguir(Cuenta::Error).fase, Fase::Fallo);
    let s = s.seguir(Cuenta::Numero(0));
    assert_eq!(s.fase, Fase::Conteo);
    assert_eq!(s.seguir(Cuenta::Numero(0)).fase, Fase::Fin);
    let s = s.seguir(Cuenta::Numero(10));
    assert_eq!(s.seguir(Cuenta::Error).fase, Fase::Fallo);
    assert_eq!(
        mensaje_repetidos(2),
        "Hay 2 pares (folio,SKU) duplicados en BD local. Ejecuta 'Reprocesar raw' primero para deduplicar."
    );
    assert_eq!(mensaje_envio(2, 5, "40", "x"), "Error en batch 2/5 (40%): x");
}

#[test]
fn limpieza_por_identificador() {
    assert_eq!(total_de_rango("0-0/123"), 123);
    assert_eq!(total_de_rango("0-0/*"), 0);
    assert_eq!(total_de_rango(""), 0);
    assert_eq!(url_ids("u", "2020-01"), "u/rest/v1/ventas?mes_ref=lt.2020-01&select=id&limit=500");
    assert_eq!(url_conteo("u", "2020-01"), "u/rest/v1/ventas?mes_ref=lt.2020-01&select=id&limit=1");
    assert_eq!(
        url_borrado("u", &vec!["1".to_string(), "2".to_string()]),
        "u/rest/v1/ventas?id=in.(1,2)&select=id"
    );
    let (e, b) = seguir_limpieza(Limpieza::Contar, 0, Cuenta::Numero(501));
    assert_eq!((e, b), (Limpieza::Pedir, 0));
    let (e, b) = seguir_limpieza(e, b, Cuenta::Numero(500));
    assert_eq!((e, b), (Limpieza::Borrar, 0));
    let (e, b) = seguir_limpieza(e, b, Cuenta::Numero(500));
    assert_eq!((e, b), (Limpieza::Pedir, 500));
    assert_eq!(seguir_limpieza(e, b, Cuenta::Numero(0)), (Limpieza::Fin, 500));
    assert_eq!(seguir_limpieza(Limpieza::Borrar, 5, Cuenta::Error), (Limpieza::Fin, 5));
    assert_eq!(seguir_purga(3, 2), (5, true));
    assert_eq!(seguir_purga(3, 0), (3, false));
}

#[test]
fn informes() {
    let r = informe(10, &vec![2, 0, 1]);
    assert_eq!((r.total_rows, r.valid_rows), (10, 10));
    assert_eq!(r.invalid_rows, vec!["sin_folio: 2 registros", "cant_neg: 1 registros"]);
    assert!(r.warnings.is_empty());
    let v = verify_upload_result(10, "0-0/12");
    assert_eq!((v.actual_count, v.matched, v.discrepancy), (12, false, 2));
    let v = verify_upload_result(12, "0-0/12");
    assert!(v.matched);
    let v = verify_upload_result(12, "");
    assert_eq!((v.actual_count, v.discrepancy), (0, 12));
    assert_eq!(url_verificacion("u", Some("s")), "u/rest/v1/ventas?capturado_en=gte.s");
    assert_eq!(url_verificacion("u", None), "u/rest/v1/ventas");
    assert_eq!(clave_verificacion("", "s"), "s");
    assert_eq!(clave_verificacion("d", "s"), "d");
}

#[test]
fn prueba_de_conexion() {
    assert_eq!(
        test_supabase_connection(200, "200 OK", ""),
        "OK - tabla 'ventas' accesible (200 OK)"
    );
    let largo = "\u{f1}".repeat(300);
    assert_eq!(
        test_supabase_connection(401, "401 Unauthorized", &largo),
        format!("ERROR 401 Unauthorized: {}", "\u{f1}".repeat(200))
    );
    assert_eq!(primeros_caracteres("abc", 2), "ab");
    assert_eq!(primeros_caracteres("abc", 5), "abc");
}

#[test]
fn subida_de_ensayo() {
    let r = dry_run_upload(1001, Some(Totales {
        cantidad: Monto(1),
        soles: Monto(2),
        dolares: Monto(3),
        facturas: 4,
        desde: "2024-01".to_string(),
        hasta: "2024-02".to_string(),
    }));
    assert_eq!((r.rows_to_upload, r.total_batches, r.unique_invoices), (1001, 3, 4));
    assert_eq!(r.total_soles, Monto(2));
    assert_eq!(r.date_range_end, Some("2024-02".to_string()));
    let r = dry_run_upload(0, None);
    assert_eq!((r.total_batches, r.total_cantidad, r.date_range_start), (0, Monto(0), None));
}

#[test]
fn columnas_que_faltan() {
    assert_eq!(migraciones(&vec![]).len(), 8);
    let todas = vec![
        "doc_cliente", "precio_unitario", "cantidad_fae", "original_sku", "tipo_operacion",
        "factura_ref_serie", "factura_ref_nro",
    ];
    let v: Vec<String> = todas.iter().map(|s| s.to_string()).collect();
    assert_eq!(migraciones(&v), vec!["ALTER TABLE ventas ADD COLUMN folio_unico TEXT"]);
    assert_eq!(
        migraciones(&vec![])[4],
        "ALTER TABLE ventas ADD COLUMN tipo_operacion TEXT DEFAULT 'venta'"
    );
}

#[test]
fn lo_que_se_reemplaza() {
    assert!(matches!(reemplazo(&vec![]), Reemplazo::Nada));
    let mut a = venta("f", "a", "");
    assert!(matches!(reemplazo(&vec![a.clone()]), Reemplazo::Mes(m) if m == "2024-01"));
    a.mes_ref = "2024-01-19".to_string();
    let mut b = a.clone();
    a.fecha_orig = Fecha { anho: 2024, mes: 1, dia: 19 };
    b.fecha_orig = Fecha { anho: 2024, mes: 1, dia: 17 };
    match reemplazo(&vec![a.clone(), b.clone(), a.clone()]) {
        Reemplazo::Dias(d, h) => assert_eq!((d, h), (b.fecha_orig, a.fecha_orig)),
        _ => panic!("la etiqueta es de un dia"),
    }
}

#[test]
fn ordenes_para_guardar() {
    let vs = vec![venta("f1", "a", "1"), venta("f2", "b", "2")];
    let os = ordenes_guardado(vs);
    assert_eq!(os.len(), 3);
    assert_eq!(guardadas(&os), 2);
    match &os[0] {
        Orden::Borrar(r) => assert_eq!(
            borrado(r),
            Some(("DELETE FROM ventas WHERE mes_ref = ?".to_string(), vec!["2024-01".to_string()]))
        ),
        Orden::Insertar(_) => panic!("primero se borra"),
    }
    assert!(matches!(&os[2], Orden::Insertar(v) if v.folio_unico == "f2"));
    assert_eq!(borrado(&Reemplazo::Nada), None);
    let dia = Fecha { anho: 2024, mes: 1, dia: 9 };
    let (sql, valores) = borrado(&Reemplazo::Dias(dia, dia)).unwrap();
    assert_eq!(sql, "DELETE FROM ventas WHERE fecha_orig BETWEEN ? AND ?");
    assert_eq!(valores, vec!["2024-01-09", "2024-01-09"]);
    assert_eq!(ordenes_guardado(vec![]).len(), 1);
}

#[test]
fn integridad_de_la_base() {
    let mal = Cuentas { repetidos: 2, sin_folio: 1, meses: 3, checksums: 0 };
    let r = verify_integrity(&mal, 2024, 9);
    assert_eq!(r.len(), 4);
    assert_eq!(r[0], "\u{26a0}\u{fe0f}  Encontrados 2 pares (folio+SKU) duplicados");
    assert_eq!(r[2], "\u{2139}\u{fe0f}  3 meses con datos (esperado ~81 desde 2018)");
    assert!(es_grave(&r[1]));
    assert!(!es_grave(&r[2]));
    assert!(es_grave("ERROR de base"));
    let bien = Cuentas { repetidos: 0, sin_folio: 0, meses: 81, checksums: 1 };
    assert_eq!(
        verify_integrity(&bien, 2024, 9),
        vec!["\u{2705} Base de datos intacta. No se encontraron inconsistencias."]
    );
}

#[test]
fn meses_hasta_el_actual() {
    let c = Cuentas { repetidos: 0, sin_folio: 0, meses: 84, checksums: 1 };
    assert_eq!(
        verify_integrity(&c, 2025, 1),
        vec!["\u{2139}\u{fe0f}  84 meses con datos (esperado ~85 desde 2018)"]
    );
    assert_eq!(
        verify_integrity(&c, 2024, 12),
        vec!["\u{2705} Base de datos intacta. No se encontraron inconsistencias."]
    );
}

#[test]
fn codigos_con_ceros() {
    assert_eq!(lz(" 12.5 ", 6), "000125");
    assert_eq!(lz("1234567", 6), "1234567");
    assert_eq!(lz(" . ", 6), "");
    assert_eq!(lz(&lz(" 12.5 ", 6), 6), lz(" 12.5 ", 6));
    let mut v = vec![venta("f", "77", "  Nombre ")];
    v[0].id_cliente = "9".to_string();
    v[0].id_linea = "".to_string();
    v[0].serie_doc = "4".to_string();
    v[0].tpo_doc = "f\u{f1}".to_string();
    normalize_ids(&mut v);
    assert_eq!((v[0].id_articulo.as_str(), v[0].id_cliente.as_str()), ("000077", "00009"));
    assert_eq!((v[0].id_linea.as_str(), v[0].serie_doc.as_str()), ("", "004"));
    normalize_text(&mut v);
    assert_eq!(v[0].nom_articulo, "Nombre");
    assert_eq!(v[0].tpo_doc, "F\u{d1}");
}
