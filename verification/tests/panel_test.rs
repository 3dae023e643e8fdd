use g360_db_ventas::archivos::{
    borrados_de, contar, dia_bien_escrito, dia_de_mes, dia_de_sincronizar, dias_mes_ref,
    es_capturado, es_de_datos, es_mensual, fuente_de, get_completeness, hay_que_buscar,
    mes_bien_escrito, mes_de_aviso, mes_de_dia, nombre_respaldo, preview_csv, preview_import,
    quitar_dia, referencia_de, reintentar_borrado, ultimo_csv, Fuente,
};
use g360_db_ventas::capture_state::{now_secs, texto_reloj, CapturePhase, ProgressState};
use g360_db_ventas::config::{AppConfig, Programa, DEFAULT_SUPABASE_KEY};
use g360_db_ventas::fecha::Fecha;
use g360_db_ventas::models::Venta;
use g360_db_ventas::panel::{
    admin_reset, ajustes_guardados, autorizar, avance_subida, esta_en_curso, get_health, get_settings,
    leer_lineas, phase_to_state, revisar_bloqueo, save_service_role_key, save_settings, set_state,
    tras_borrar_bloqueo, Bloqueo, Edad, Formulario,
};

#[test]
fn permiso_para_borrar() {
    assert_eq!(autorizar(Ok(())), Ok(()));
    assert_eq!(
        autorizar(Err("credenciales".to_string())),
        Err("No autorizado: credenciales".to_string())
    );
}

#[test]
fn fases_de_una_captura() {
    assert_eq!(CapturePhase::CheckingLock.to_text(), "checking_lock");
    assert_eq!(CapturePhase::Done.to_text(), "done");
    let mut s = ProgressState::new();
    assert_eq!((s.message.as_str(), s.progress), ("Listo", 0));
    assert_eq!(ProgressState::default().phase, CapturePhase::Idle);
    s.set_start_at("va", 100);
    assert_eq!((s.phase, s.started_at, s.finished_at), (CapturePhase::Downloading, Some(100), None));
    assert_eq!(s.transcurridos(165), 65);
    assert_eq!(s.transcurridos(5), 0);
    s.update_progress(0.5f32.to_bits(), "");
    assert_eq!((s.message.as_str(), f32::from_bits(s.progress)), ("va", 0.5));
    s.update_progress(1.0f32.to_bits(), "ya");
    s.set_current("2024-01");
    assert_eq!((s.message.as_str(), s.current_item.as_str()), ("ya", "2024-01"));
    s.set_phase_at(CapturePhase::Parsing, "p", 170);
    assert_eq!(s.finished_at, None);
    s.set_phase_at(CapturePhase::Error, "e", 180);
    assert_eq!(s.finished_at, Some(180));
    assert_eq!(texto_reloj(65), "01:05");
    assert_eq!(texto_reloj(6000), "100:00");
}

#[test]
fn fases_con_la_hora_de_ahora() {
    let antes = now_secs();
    assert!(antes > 1_600_000_000);
    let mut s = ProgressState::new();
    s.set_start("va");
    assert!(s.started_at.unwrap() >= antes);
    s.set_phase(CapturePhase::Done, "fin");
    assert!(s.finished_at.unwrap() >= antes);
}

#[test]
fn estado_del_panel() {
    assert_eq!(phase_to_state(&CapturePhase::Done), "idle");
    assert_eq!(phase_to_state(&CapturePhase::Parsing), "syncing");
    assert_eq!(phase_to_state(&CapturePhase::Uploading), "uploading");
    assert_eq!(phase_to_state(&CapturePhase::Error), "error");
    assert!(esta_en_curso(CapturePhase::Normalizing));
    assert!(!esta_en_curso(CapturePhase::Error));
    let mut s = ProgressState::new();
    set_state(&mut s, "uploading", "sube", 7, 10);
    assert_eq!((s.phase, s.started_at, s.finished_at), (CapturePhase::Uploading, Some(10), None));
    set_state(&mut s, "idle", "fin", 8, 20);
    assert_eq!((s.phase, s.started_at, s.finished_at), (CapturePhase::Idle, Some(10), Some(20)));
    set_state(&mut s, "otro", "x", 9, 30);
    assert_eq!((s.phase, s.started_at, s.finished_at), (CapturePhase::Downloading, Some(10), Some(20)));
    avance_subida(&mut s, "m", 5, 40);
    assert_eq!((s.phase, s.started_at, s.finished_at), (CapturePhase::Uploading, Some(10), None));
    let mut s = ProgressState::new();
    avance_subida(&mut s, "m", 5, 40);
    assert_eq!(s.started_at, Some(40));
}

#[test]
fn bloqueo_antes_de_capturar() {
    assert!(matches!(revisar_bloqueo(false, true, &Edad::SinDatos), Bloqueo::Libre));
    assert!(matches!(revisar_bloqueo(true, false, &Edad::Segundos(1)), Bloqueo::Borrar));
    assert!(matches!(revisar_bloqueo(true, true, &Edad::SinDatos), Bloqueo::Libre));
    assert!(matches!(
        revisar_bloqueo(true, true, &Edad::SinHora),
        Bloqueo::Ocupado(m) if m == "Ya hay una captura en curso. Use \u{23f9} detener."
    ));
    assert!(matches!(
        revisar_bloqueo(true, true, &Edad::Segundos(65)),
        Bloqueo::Ocupado(m) if m == "Ya hay una captura en curso (hace 1m 5s). Use \u{23f9} detener o espere."
    ));
    assert!(matches!(tras_borrar_bloqueo(false, &Edad::Segundos(1)), Bloqueo::Libre));
    assert!(matches!(
        tras_borrar_bloqueo(true, &Edad::Segundos(4)),
        Bloqueo::Ocupado(m) if m == "Lock liber\u{e1}ndose (hace 4s). Reintente en 3s."
    ));
    assert!(matches!(tras_borrar_bloqueo(true, &Edad::Segundos(5)), Bloqueo::Borrar));
    assert!(matches!(tras_borrar_bloqueo(true, &Edad::SinHora), Bloqueo::Libre));
}

#[test]
fn salud_del_sistema() {
    assert_eq!(get_health(true, false, &Edad::Segundos(2), 5), ("STALE_LOCK", false));
    assert_eq!(get_health(true, false, &Edad::Segundos(3), 5), ("OK", true));
    assert_eq!(get_health(true, true, &Edad::Segundos(3), 5), ("SYNCING", false));
    assert_eq!(get_health(false, false, &Edad::SinDatos, 0), ("EMPTY", false));
    assert_eq!(get_health(true, false, &Edad::SinHora, 1), ("OK", true));
    assert_eq!(get_health(true, false, &Edad::SinDatos, 1), ("OK", false));
}

fn formulario() -> Formulario {
    Formulario {
        supabase_url: "https://x".to_string(),
        supabase_key: " ".to_string(),
        intranet_user: "ana".to_string(),
        intranet_pass: "p".to_string(),
        generado_por: "eva".to_string(),
        allowed_lines: " 01, ca ,,\u{f1}1".to_string(),
        auto_sync: true,
        app_retention_years: 2,
        supabase_retention_years: 3,
        supabase_retention_days: 0,
        auto_daily_capture: true,
        capture_times: vec![],
    }
}

#[test]
fn ajustes_del_panel() {
    let mut cfg = AppConfig::default_app();
    let mut p = Programa::nuevo();
    p.capture_times = vec!["08:00".to_string()];
    cfg.supabase.key = "clave".to_string();
    assert_eq!(leer_lineas(" 01, ca ,,\u{f1}1"), vec!["01", "CA", "\u{d1}1"]);
    save_settings(&mut cfg, &mut p, formulario());
    assert_eq!(cfg.supabase.key, "clave");
    assert_eq!(cfg.intranet.pass, "p");
    assert_eq!(cfg.allowed_lines, vec!["01", "CA", "\u{d1}1"]);
    assert_eq!(p.capture_times, vec!["08:00"]);
    let s = get_settings(&cfg, &p, "otra", "/d");
    assert_eq!((s.supabase_key.as_str(), s.intranet_user.as_str()), ("clave", "ana"));
    assert_eq!((s.intranet_pass.as_str(), s.allowed_lines.as_str()), ("", "01, CA, \u{d1}1"));
    assert_eq!(s.supabase_retention_years, 1095);
    assert!(s.supabase_configured && !s.supabase_service_role_configured);
    let g = ajustes_guardados(&cfg, &p, "/d");
    assert_eq!((g.supabase_key.as_str(), g.db_path.as_str()), ("", "/d"));
    cfg.intranet.user = String::new();
    assert_eq!(get_settings(&cfg, &p, "otra", "/d").intranet_user, "otra");
}

#[test]
fn clave_de_servicio() {
    let mut p = Programa::nuevo();
    assert_eq!(save_service_role_key(&mut p, "k".to_string()), "Service role key ha sido configurado");
    assert_eq!(p.service_role_key, "k");
    assert_eq!(
        save_service_role_key(&mut p, " ".to_string()),
        "Service role key ha sido eliminado configurado"
    );
    assert_eq!(p.service_role_key, "");
}

#[test]
fn ajustes_repuestos() {
    let mut cfg = AppConfig::default_app();
    let mut p = Programa::nuevo();
    save_settings(&mut cfg, &mut p, formulario());
    cfg.supabase.key = "k".to_string();
    cfg.last_supabase_sync = Some("x".to_string());
    let (c, q) = admin_reset(&cfg, &p);
    assert_eq!(c.supabase.key, DEFAULT_SUPABASE_KEY);
    assert!(!c.supabase.is_configured());
    assert_eq!((c.intranet.user.as_str(), c.last_supabase_sync), ("", None));
    assert_eq!(c.allowed_lines, cfg.allowed_lines);
    assert!(c.auto_sync && !q.auto_daily_capture);
    assert_eq!((q.app_retention_years, q.supabase_retention_years), (2, 3));
}

#[test]
fn nombres_de_archivos() {
    assert!(es_mensual("ventas_2024-01.csv"));
    assert!(!es_mensual("ventas_2024-01-19.csv"));
    assert!(!es_mensual("ventas_2024-p1.csv"));
    assert!(es_capturado("ventas_2024-01-19.csv"));
    assert!(!es_capturado("ventas_2024-01-p2_1.csv"));
    assert!(es_de_datos("ventas_x.html"));
    assert!(es_de_datos("summary.txt"));
    assert!(es_de_datos("failed_2024-01.json"));
    assert!(!es_de_datos("config.json"));
    assert_eq!(borrados_de("ventas_2024-01.xls", true, Some(1001)), 1);
    assert_eq!(borrados_de("ventas_2024-01.xls", true, Some(1000)), 0);
    assert_eq!(borrados_de("ventas_2024-01-p2_1.csv", false, None), 1);
    assert_eq!(mes_de_aviso("failed_2024-01.json"), Some("2024-01".to_string()));
    assert_eq!(mes_de_aviso("ventas_2024-01.csv"), None);
}

#[test]
fn ultimo_archivo_capturado() {
    let v: Vec<String> = ["ventas_2023-12.csv", "ventas_2024-02.csv", "zz.csv", "ventas_2024-01.csv"]
        .iter().map(|s| s.to_string()).collect();
    assert_eq!(ultimo_csv(&v), Some(1));
    assert_eq!(ultimo_csv(&vec!["zz.csv".to_string()]), None);
}

#[test]
fn vista_previa_de_un_csv() {
    let v = preview_csv(b"A , B\n 1,2 \n3,4\n5\n").unwrap();
    assert_eq!(v, vec![vec!["A", "B"], vec!["1", "2"], vec!["3", "4"]]);
    assert!(preview_csv(b"A,B\n1\n").is_err());
    assert_eq!(preview_csv(b"A,B\n").unwrap().len(), 1);
}

#[test]
fn lo_que_falta_de_un_mes() {
    assert_eq!(dias_mes_ref("2024-02"), Some(29));
    assert_eq!(dias_mes_ref("1900-02"), Some(28));
    assert_eq!(dias_mes_ref("x-y"), Some(31));
    assert_eq!(dias_mes_ref("2024-13"), Some(30));
    assert_eq!(dias_mes_ref("2024-01-19"), None);
    assert_eq!(dia_de_mes("2024-02", 7), "2024-02-07");
    let mut por_dia = vec![1i64; 29];
    let mut tamanos = vec![None; 29];
    tamanos[3] = Some(1001);
    tamanos[4] = Some(1000);
    for k in 0..7 {
        por_dia[k] = 0;
    }
    let c = get_completeness("2024-02", 22, 500, &por_dia, &tamanos);
    assert_eq!((c.dias_esperados, c.dailies_en_disco, c.filas), (29, 1, 500));
    assert_eq!(c.faltan, vec!["01", "02", "03", "04", "05"]);
    assert_eq!(c.estado, "OK");
    assert_eq!(get_completeness("x", 19, 0, &vec![], &vec![]).estado, "PARCIAL");
    assert_eq!(get_completeness("x", 0, 0, &vec![], &vec![]).estado, "VACIO");
}

#[test]
fn importacion_a_mano() {
    assert!(dia_bien_escrito("2024-01-19"));
    assert!(!dia_bien_escrito("2024-01-9"));
    assert!(mes_bien_escrito("2024-01"));
    assert!(!mes_bien_escrito("2024001"));
    assert_eq!(mes_de_dia("2024-01-19"), Some("2024-01".to_string()));
    assert_eq!(mes_de_dia("2024-0\u{f1}"), None);
    assert_eq!(mes_de_dia("2024"), None);
    let dias: Vec<String> = ["a", "b", "a"].iter().map(|s| s.to_string()).collect();
    assert_eq!(quitar_dia(&dias, "a"), vec!["b"]);
    let c = contar(&dias);
    assert_eq!(c, vec![("a".to_string(), 2), ("b".to_string(), 1)]);
    assert_eq!(c.iter().map(|p| p.1).sum::<usize>(), dias.len());
}

fn nota(dia: Fecha) -> Venta {
    let mut v = Venta::nuevo("a", "2024-01");
    v.tpo_doc = "NCR".to_string();
    v.referencia = "F01/204-1".to_string();
    v.factura_ref_serie = "204".to_string();
    v.factura_ref_nro = "1".to_string();
    v.tipo_operacion = "devolucion".to_string();
    v.fecha_orig = dia;
    v
}

#[test]
fn referencias_de_notas() {
    let d = Fecha { anho: 2024, mes: 1, dia: 5 };
    let v = nota(d);
    assert!(hay_que_buscar(&v));
    assert_eq!(referencia_de(&v, true), Some("REFERENCIA_OK"));
    assert_eq!(referencia_de(&v, false), Some("PENDIENTE_DE_ERP"));
    let vieja = nota(Fecha { anho: 2020, mes: 2, dia: 29 });
    assert_eq!(referencia_de(&vieja, false), Some("DOCUMENTO_FUERA_DE_VENTANA"));
    let limite = nota(Fecha { anho: 2020, mes: 3, dia: 1 });
    assert_eq!(referencia_de(&limite, false), Some("PENDIENTE_DE_ERP"));
    let mut sin = nota(d);
    sin.referencia = " ".to_string();
    assert!(!hay_que_buscar(&sin));
    assert_eq!(referencia_de(&sin, false), Some("NO_ENCONTRADA"));
    let mut f = nota(d);
    f.tpo_doc = "F01".to_string();
    assert_eq!(referencia_de(&f, true), None);
}

#[test]
fn vista_previa_de_una_importacion() {
    let d = Fecha { anho: 2024, mes: 1, dia: 5 };
    let mut f = nota(d);
    f.tpo_doc = "F01".to_string();
    f.tipo_operacion = "venta".to_string();
    let vs = vec![f.clone(), nota(d), f];
    let soles = vec!["1.00".to_string(), "-1.00".to_string(), "2.00".to_string()];
    let r = preview_import("x.xls", &vs, &vec![false, true, false], &soles);
    assert_eq!((r.total_rows, r.insertable_rows), (4, 3));
    assert_eq!(r.tipo_desglose, vec![("venta".to_string(), 2), ("devolucion".to_string(), 1)]);
    assert_eq!(r.referencia_status, vec![("REFERENCIA_OK".to_string(), 1)]);
    assert_eq!(r.preview_rows[1], vec!["NCR", "", "", "", "-1.00", "2024-01-05"]);
    assert!(r.warnings.is_empty());
    let r = preview_import("x.xls", &vec![], &vec![], &vec![]);
    assert_eq!(r.warnings, vec!["Parse devolvio 0 filas \u{2014} verifica que sea Estadistica11"]);
}

#[test]
fn nombres_con_fecha() {
    assert_eq!(nombre_respaldo(1_735_689_599), "historial_20241231_1859.db");
    assert_eq!(dia_de_sincronizar(None, 1_735_689_599), "2024-12-31");
    assert_eq!(dia_de_sincronizar(Some("2024-01-01".to_string()), 0), "2024-01-01");
    assert!(reintentar_borrado(4, false));
    assert!(!reintentar_borrado(5, false));
    assert!(!reintentar_borrado(1, true));
}

#[test]
fn lineas_ida_y_vuelta() {
    let lineas = leer_lineas("01,ca, 0181");
    assert_eq!(lineas, vec!["01", "CA", "0181"]);
    assert_eq!(leer_lineas(&lineas.join(", ")), lineas);
    assert!(leer_lineas("").is_empty());
}

#[test]
fn archivos_de_datos() {
    assert_eq!(fuente_de(Some("csv")), Fuente::Csv);
    assert_eq!(fuente_de(Some("xls")), Fuente::Libro);
    assert_eq!(fuente_de(Some("xlsx")), Fuente::Libro);
    assert_eq!(fuente_de(Some("json")), Fuente::Otra);
    assert_eq!(fuente_de(None), Fuente::Otra);
}

#[test]
fn nombres_del_comienzo() {
    assert_eq!(nombre_respaldo(0), "historial_19691231_1900.db");
    assert_eq!(dia_de_sincronizar(None, 0), "1969-12-31");
    assert_eq!(dia_de_sincronizar(None, 18_000), "1970-01-01");
}
