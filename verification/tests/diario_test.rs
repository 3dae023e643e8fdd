use g360_db_ventas::config::AppConfig;
use g360_db_ventas::diario::{
    acortar_nombre, adelanta_marca, adelanta_sin_verificar, ayer, escribir_momento,
    leer_recaptura, mensaje_subida, mensaje_verificada, proxima_captura, rango_en_curso,
    requisitos, seguir, sin_verificar, ErrorRango, Momento, Origen, Paso, Suceso,
};
use g360_db_ventas::fecha::Fecha;
use g360_db_ventas::uploader::verify_upload_result;

fn f(anho: i32, mes: u32, dia: u32) -> Fecha {
    Fecha { anho, mes, dia }
}

#[test]
fn requisitos_para_sincronizar() {
    let mut c = AppConfig::default_app();
    assert_eq!(requisitos(&c).unwrap_err(), "Supabase no configurado");
    c.supabase.url = "https://x".to_string();
    c.supabase.key = "k".to_string();
    assert_eq!(requisitos(&c).unwrap_err(), "Credenciales de intranet no configuradas");
    c.intranet.user = "u".to_string();
    assert!(requisitos(&c).is_err());
    c.intranet.pass = "p".to_string();
    assert!(requisitos(&c).is_ok());
}

#[test]
fn dia_anterior() {
    assert_eq!(ayer(f(2024, 3, 1)), Some("2024-02-29".to_string()));
    assert_eq!(ayer(f(-262_143, 1, 1)), None);
}

#[test]
fn pasos_desde_el_panel() {
    let o = Origen::Panel;
    let mut p = Paso::Captura;
    let esperado = vec![Paso::Integridad, Paso::Checksums, Paso::Conteo, Paso::Subida, Paso::Verificacion, Paso::Fin];
    for e in esperado {
        p = seguir(o, p, if p == Paso::Conteo { Suceso::Filas(3) } else { Suceso::Bien });
        assert_eq!(p, e);
    }
    assert_eq!(seguir(o, Paso::Captura, Suceso::Mal), Paso::Error);
    assert_eq!(seguir(o, Paso::Integridad, Suceso::Mal), Paso::Checksums);
    assert_eq!(seguir(o, Paso::Conteo, Suceso::Filas(0)), Paso::Vacio);
    assert_eq!(seguir(o, Paso::Conteo, Suceso::Mal), Paso::Error);
    assert_eq!(seguir(o, Paso::Subida, Suceso::Mal), Paso::Error);
    assert_eq!(seguir(o, Paso::Verificacion, Suceso::Mal), Paso::Fin);
}

#[test]
fn pasos_desde_la_tarea() {
    let o = Origen::Tarea;
    assert_eq!(seguir(o, Paso::Integridad, Suceso::Bien), Paso::Conteo);
    assert_eq!(seguir(o, Paso::Verificacion, Suceso::Bien), Paso::Checksums);
    assert_eq!(seguir(o, Paso::Checksums, Suceso::Mal), Paso::Fin);
}

#[test]
fn marca_de_subida() {
    let bien = Some(verify_upload_result(5, "0-0/5"));
    let mal = Some(verify_upload_result(5, "0-0/4"));
    assert!(adelanta_marca(Origen::Panel, 5, &bien));
    assert!(!adelanta_marca(Origen::Panel, 0, &bien));
    assert!(adelanta_marca(Origen::Tarea, 0, &bien));
    assert!(!adelanta_marca(Origen::Tarea, 5, &mal));
    assert!(!adelanta_marca(Origen::Tarea, 5, &None));
    let s = sin_verificar(7);
    assert_eq!((s.expected_count, s.actual_count, s.matched, s.discrepancy), (7, 0, false, 7));
    assert!(adelanta_sin_verificar(1));
    assert!(!adelanta_sin_verificar(0));
    assert_eq!(mensaje_subida(5, 0), "Sync OK: 5 rows");
    assert_eq!(mensaje_subida(5, 2), "Sync OK: 5 rows + 2 antiguos limpiados");
    assert_eq!(
        mensaje_verificada(5, 0, &bien.unwrap()),
        "Sync OK: 5 rows verificado: 5 filas confirmadas"
    );
    assert_eq!(
        mensaje_verificada(5, 1, &mal.unwrap()),
        "Sync OK: 5 rows + 1 antiguos limpiados verificaci\u{f3}n: esperadas 5, encontradas 4"
    );
}

#[test]
fn hora_de_la_proxima_captura() {
    let ahora = Momento { dia: f(2024, 2, 29), segundo: 10 * 3600, pasado: false };
    let p = proxima_captura("12:30", ahora).unwrap();
    assert_eq!((p.dia, p.segundo, p.horas), (f(2024, 2, 29), 45_000, 2));
    let p = proxima_captura("10:00", ahora).unwrap();
    assert_eq!((p.dia, p.segundo, p.horas), (f(2024, 3, 1), 36_000, 24));
    let pasado = Momento { pasado: true, ..ahora };
    assert_eq!(proxima_captura("10:00", pasado).unwrap().horas, 23);
    assert_eq!(proxima_captura("12:00", pasado).unwrap().horas, 1);
    let p = proxima_captura("25:00", pasado).unwrap();
    assert_eq!((p.dia, p.segundo, p.horas), (f(2024, 3, 1), 36_000, 24));
    assert!(proxima_captura("10", ahora).is_none());
    assert!(proxima_captura("a:b", ahora).is_none());
    assert!(proxima_captura("1:2:3", ahora).is_none());
    assert_eq!(escribir_momento(f(2024, 2, 29), 45_061), "2024-02-29T12:31:01");
}

#[test]
fn ordenes_sueltas() {
    let r = rango_en_curso(f(2024, 1, 15)).unwrap();
    assert!(rango_en_curso(f(2020, 1, 15)).is_none());
    assert_eq!((r.start, r.end), (f(2024, 1, 1), f(2024, 1, 15)));
    assert_eq!(r.label, "2023-12");
    assert!(matches!(leer_recaptura("x", "2024-01-01"), Err(ErrorRango::Inicio)));
    assert!(matches!(leer_recaptura("2024-01-01", "x"), Err(ErrorRango::Fin)));
    assert!(matches!(leer_recaptura("2024-01-02", "2024-01-01"), Err(ErrorRango::Orden)));
    match leer_recaptura("2024-01-01", "2024-01-02") {
        Ok(p) => assert_eq!(p, (f(2024, 1, 1), f(2024, 1, 2))),
        Err(_) => panic!("el rango vale"),
    }
    assert_eq!(acortar_nombre("corto"), Some("corto".to_string()));
    assert_eq!(acortar_nombre(&"a".repeat(40)), Some("a".repeat(35)));
    assert_eq!(acortar_nombre(&"\u{f1}".repeat(20)), None);
}
