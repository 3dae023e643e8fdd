use g360_db_ventas::config::{
    asiento_config, config_file_path, data_dir, db_path, default_allowed_lines,
    effective_allowed_lines, effective_intranet_pass, effective_intranet_user,
    get_supabase_key, get_supabase_service_key, get_supabase_url, is_allowed_line, logs_dir,
    por_definir, raw_dir, variables_env, AppConfig, Programa, SupabaseConfig, DEFAULT_SUPABASE_KEY,
    DEFAULT_SUPABASE_URL, MONTHS_BACK, SLEEP_BETWEEN_MONTHS,
};

#[test]
fn variables_de_un_archivo() {
    let v = variables_env("# nota\n\nA=1\n B = \"dos\" \nsin igual\n=nada\nC='tres'\nD=a=b\r\n");
    let esperado = vec![("A", "1"), ("B", "dos"), ("C", "tres"), ("D", "a=b")];
    let v: Vec<(&str, &str)> = v.iter().map(|(k, x)| (k.as_str(), x.as_str())).collect();
    assert_eq!(v, esperado);
}

#[test]
fn variables_que_se_definen() {
    // La primera linea de cada nombre, y solo si no estaba definido.
    let v = variables_env("A=1\nB=2\nA=3\nC=4\n");
    let d = por_definir(&v, &vec![false, true, false, false]);
    let d: Vec<(&str, &str)> = d.iter().map(|(k, x)| (k.as_str(), x.as_str())).collect();
    assert_eq!(d, vec![("A", "1"), ("C", "4")]);
    let d = por_definir(&v, &vec![true, true, true, true]);
    assert!(d.is_empty());
    assert!(por_definir(&vec![], &vec![]).is_empty());
}

#[test]
fn supabase_configurado() {
    assert!(!SupabaseConfig::empty().is_configured());
    let c = SupabaseConfig { url: "https://x.supabase.co".to_string(), key: "k".to_string() };
    assert!(c.is_configured());
    let c = SupabaseConfig { url: "".to_string(), key: "k".to_string() };
    assert!(!c.is_configured());
    let c = SupabaseConfig { url: "https://x".to_string(), key: "xTU_ANON_KEYx".to_string() };
    assert!(!c.is_configured());
    let c = SupabaseConfig { url: DEFAULT_SUPABASE_URL.to_string(), key: "k".to_string() };
    assert!(!c.is_configured());
}

#[test]
fn ajustes_de_fabrica() {
    let c = AppConfig::default_app();
    assert_eq!(get_supabase_url(&c), DEFAULT_SUPABASE_URL);
    assert_eq!(get_supabase_key(&c), DEFAULT_SUPABASE_KEY);
    assert_eq!(c.data_retention_years, 4);
    assert!(!c.auto_sync);
    assert_eq!(c.last_supabase_sync, None);
    assert_eq!(MONTHS_BACK, 12);
    assert_eq!(SLEEP_BETWEEN_MONTHS, 3);
}

#[test]
fn credenciales_en_vigor() {
    let mut c = AppConfig::default_app();
    c.intranet.user = "ana".to_string();
    c.intranet.pass = "x".to_string();
    assert_eq!(effective_intranet_user("".to_string(), &c), "ana");
    assert_eq!(effective_intranet_user("eva".to_string(), &c), "eva");
    assert_eq!(effective_intranet_pass("".to_string(), &c), "x");
    assert_eq!(effective_intranet_pass("y".to_string(), &c), "y");
    let mut p = Programa::nuevo();
    assert_eq!(get_supabase_service_key(&c, &p), DEFAULT_SUPABASE_KEY);
    p.service_role_key = "s".to_string();
    assert_eq!(get_supabase_service_key(&c, &p), "s");
}

#[test]
fn dias_que_se_conservan() {
    let mut p = Programa::nuevo();
    assert_eq!(p.supabase_retention_days_effective(), 1460);
    p.supabase_retention_days = 90;
    assert_eq!(p.supabase_retention_days_effective(), 90);
    p.supabase_retention_days = 0;
    p.supabase_retention_years = 0;
    assert_eq!(p.supabase_retention_days_effective(), 0);
    p.supabase_retention_years = u32::MAX;
    assert_eq!(p.supabase_retention_days_effective(), u32::MAX);
}

#[test]
fn lineas_permitidas() {
    let mut c = AppConfig::default_app();
    assert_eq!(default_allowed_lines().len(), 24);
    assert!(is_allowed_line("0102", &c));
    assert!(is_allowed_line("0181", &c));
    assert!(is_allowed_line("0199", &c));
    assert!(is_allowed_line("CA", &c));
    assert!(!is_allowed_line("0150", &c));
    assert!(!is_allowed_line("1", &c));
    assert!(!is_allowed_line("", &c));
    c.allowed_lines = vec!["50".to_string()];
    assert!(is_allowed_line("0150", &c));
    assert!(!is_allowed_line("0102", &c));
    c.allowed_lines = vec![];
    assert_eq!(effective_allowed_lines(&c), default_allowed_lines());
    assert!(!is_allowed_line("\u{20ac}", &c));
    c.allowed_lines = vec!["A\u{d1}".to_string(), "\u{20ac}".to_string()];
    assert!(is_allowed_line("A\u{d1}", &c));
    assert!(is_allowed_line("01A\u{d1}", &c));
    assert!(!is_allowed_line("\u{20ac}", &c));
}

#[test]
fn rutas() {
    assert_eq!(data_dir(None), vec![".", "g360-db-ventas", "data"]);
    let base = Some("/home/ana/.config".to_string());
    assert_eq!(raw_dir(base.clone()), vec!["/home/ana/.config", "g360-db-ventas", "data", "raw"]);
    assert_eq!(db_path(base.clone())[3], "historial.db");
    assert_eq!(logs_dir(base.clone())[3], "logs");
    assert_eq!(config_file_path(base)[3], "config.json");
}

#[test]
fn asiento_de_la_bitacora() {
    let mut c = AppConfig::default_app();
    assert_eq!(
        asiento_config("2024-01-01T00:00:00Z", &c),
        "[2024-01-01T00:00:00Z] config saved by sistema \u{2014} allowed_lines=24, retention=4y, supabase=false"
    );
    c.generado_por = "ana".to_string();
    c.supabase.url = "https://x".to_string();
    c.supabase.key = "k".to_string();
    assert!(asiento_config("t", &c).ends_with("by ana \u{2014} allowed_lines=24, retention=4y, supabase=true"));
}
