//! Ordenes del panel: estado, bloqueo, salud y ajustes.

use crate::capture_state::CapturePhase;
use crate::capture_state::ProgressState;
use crate::capture_state::ProgressVista;
use crate::config;
use crate::config::AppConfig;
use crate::config::Programa;
use crate::models;
use crate::texto;
use vstd::prelude::*;

verus! {

// ---------------------------------------------------------------------------
// Estado
// ---------------------------------------------------------------------------

/// El estado que ve el panel en cada fase.
pub open spec fn estado_de(phase: CapturePhase) -> Seq<char> {
    match phase {
        CapturePhase::Idle | CapturePhase::Done => "idle"@,
        CapturePhase::Uploading => "uploading"@,
        CapturePhase::Error => "error"@,
        _ => "syncing"@,
    }
}

pub fn phase_to_state(phase: &CapturePhase) -> (r: &'static str)
    ensures
        r@ == estado_de(*phase),
{
    match phase {
        CapturePhase::Idle => "idle",
        CapturePhase::CheckingLock => "syncing",
        CapturePhase::Downloading => "syncing",
        CapturePhase::Parsing => "syncing",
        CapturePhase::Normalizing => "syncing",
        CapturePhase::Uploading => "uploading",
        CapturePhase::Done => "idle",
        CapturePhase::Error => "error",
    }
}

/// El avance tras ponerle un estado del panel: al empezar se apunta la hora de
/// comienzo y al acabar la de fin.
pub open spec fn con_estado(
    s: ProgressVista,
    state: Seq<char>,
    msg: Seq<char>,
    progress: u32,
    ahora: u64,
) -> ProgressVista {
    let empieza = state == "syncing"@ || state == "uploading"@;
    ProgressVista {
        phase: if state == "idle"@ {
            CapturePhase::Idle
        } else if state == "uploading"@ {
            CapturePhase::Uploading
        } else {
            CapturePhase::Downloading
        },
        message: msg,
        progress,
        started_at: if empieza {
            Some(ahora)
        } else {
            s.started_at
        },
        finished_at: if empieza {
            None
        } else if state == "idle"@ {
            Some(ahora)
        } else {
            s.finished_at
        },
        ..s
    }
}

pub fn set_state(s: &mut ProgressState, state: &str, msg: &str, progress: u32, ahora: u64)
    ensures
        final(s)@ == con_estado(old(s)@, state@, msg@, progress, ahora),
{
    let idle = texto::iguales(state, "idle");
    let uploading = texto::iguales(state, "uploading");
    let syncing = texto::iguales(state, "syncing");
    proof {
        reveal_strlit("idle");
        reveal_strlit("uploading");
        reveal_strlit("syncing");
        assert("idle"@.len() != "uploading"@.len());
        assert("idle"@.len() != "syncing"@.len());
    }
    s.phase = if idle {
        CapturePhase::Idle
    } else if uploading {
        CapturePhase::Uploading
    } else {
        CapturePhase::Downloading
    };
    s.message = msg.to_owned();
    s.progress = progress;
    if syncing || uploading {
        s.started_at = Some(ahora);
        s.finished_at = None;
    } else if idle {
        s.finished_at = Some(ahora);
    }
}

/// Hay una captura en curso.
pub open spec fn en_curso(phase: CapturePhase) -> bool {
    phase != CapturePhase::Idle && phase != CapturePhase::Done && phase != CapturePhase::Error
}

pub fn esta_en_curso(phase: CapturePhase) -> (r: bool)
    ensures
        r == en_curso(phase),
{
    phase != CapturePhase::Idle && phase != CapturePhase::Done && phase != CapturePhase::Error
}

/// El panel ve que hay algo en marcha justo cuando hay una captura en curso.
pub proof fn ley_estado_y_curso(phase: CapturePhase)
    ensures
        en_curso(phase) <==> estado_de(phase) == "syncing"@ || estado_de(phase) == "uploading"@,
{
    reveal_strlit("idle");
    reveal_strlit("syncing");
    reveal_strlit("uploading");
    reveal_strlit("error");
    assert("idle"@.len() == 4 && "error"@.len() == 5 && "syncing"@.len() == 7 && "uploading"@.len()
        == 9);
}

/// El avance de una subida.
pub fn avance_subida(s: &mut ProgressState, msg: &str, progress: u32, ahora: u64)
    ensures
        final(s)@ == (ProgressVista {
            phase: CapturePhase::Uploading,
            message: msg@,
            progress,
            started_at: match old(s)@.started_at {
                Some(t) => Some(t),
                None => Some(ahora),
            },
            finished_at: None,
            ..old(s)@
        }),
{
    s.phase = CapturePhase::Uploading;
    s.message = msg.to_owned();
    s.progress = progress;
    if s.started_at.is_none() {
        s.started_at = Some(ahora);
    }
    s.finished_at = None;
}

// ---------------------------------------------------------------------------
// Bloqueo
// ---------------------------------------------------------------------------

/// Lo que se sabe del archivo de bloqueo: si se pueden leer sus datos y, si se
/// puede, los segundos que hace que cambio.
pub enum Edad {
    SinDatos,
    SinHora,
    Segundos(u64),
}

/// Que hacer con el bloqueo antes de capturar.
pub enum Bloqueo {
    /// No estorba.
    Libre,
    /// Nadie lo usa: borrarlo.
    Borrar,
    /// No se puede capturar, y por que.
    Ocupado(String),
}

pub open spec fn texto_bloqueo(b: Bloqueo) -> Option<Seq<char>> {
    match b {
        Bloqueo::Ocupado(m) => Some(m@),
        _ => None,
    }
}

/// Antes de capturar: sin bloqueo se sigue; si nadie captura, el bloqueo sobra; si
/// no, hay otra captura, salvo que el bloqueo acabe de desaparecer.
pub fn revisar_bloqueo(existe: bool, en_marcha: bool, edad: &Edad) -> (r: Bloqueo)
    ensures
        if !existe {
            r is Libre
        } else if !en_marcha {
            r is Borrar
        } else {
            match edad {
                Edad::SinDatos => r is Libre,
                Edad::SinHora => texto_bloqueo(r) == Some(
                    "Ya hay una captura en curso. Use \u{23f9} detener."@,
                ),
                Edad::Segundos(s) => texto_bloqueo(r) == Some(
                    "Ya hay una captura en curso (hace "@ + texto::decimal((*s / 60) as nat) + "m "@
                        + texto::decimal((*s % 60) as nat) + "s). Use \u{23f9} detener o espere."@,
                ),
            }
        },
{
    if !existe {
        return Bloqueo::Libre;
    }
    if !en_marcha {
        return Bloqueo::Borrar;
    }
    match edad {
        Edad::SinDatos => Bloqueo::Libre,
        Edad::SinHora => Bloqueo::Ocupado(
            "Ya hay una captura en curso. Use \u{23f9} detener.".to_owned(),
        ),
        Edad::Segundos(s) => {
            let m = texto::mas(
                "Ya hay una captura en curso (hace ".to_owned(),
                texto::texto_u64(*s / 60).as_str(),
            );
            let m = texto::mas(texto::mas(m, "m "), texto::texto_u64(*s % 60).as_str());
            Bloqueo::Ocupado(texto::mas(m, "s). Use \u{23f9} detener o espere."))
        },
    }
}

/// Tras borrar el bloqueo: si sigue ahi y cambio hace menos de cinco segundos se
/// espera; si hace mas, se borra otra vez.
pub fn tras_borrar_bloqueo(sigue: bool, edad: &Edad) -> (r: Bloqueo)
    ensures
        match edad {
            Edad::Segundos(s) => if !sigue {
                r is Libre
            } else if *s < 5 {
                texto_bloqueo(r) == Some(
                    "Lock liber\u{e1}ndose (hace "@ + texto::decimal(*s as nat)
                        + "s). Reintente en 3s."@,
                )
            } else {
                r is Borrar
            },
            _ => r is Libre,
        },
{
    if !sigue {
        return Bloqueo::Libre;
    }
    match edad {
        Edad::Segundos(s) => if *s < 5 {
            let m = texto::mas(
                "Lock liber\u{e1}ndose (hace ".to_owned(),
                texto::texto_u64(*s).as_str(),
            );
            Bloqueo::Ocupado(texto::mas(m, "s). Reintente en 3s."))
        } else {
            Bloqueo::Borrar
        },
        _ => Bloqueo::Libre,
    }
}

/// El bloqueo esta abandonado hace poco: nadie captura y cambio hace dos segundos o
/// menos.
pub open spec fn abandonado(existe: bool, en_marcha: bool, edad: Edad) -> bool {
    existe && !en_marcha && (edad matches Edad::Segundos(s) && s <= 2)
}

/// El bloqueo abandonado se borra, salvo que acabe de cambiar o no se pueda leer.
pub open spec fn se_borra(existe: bool, en_marcha: bool, edad: Edad) -> bool {
    existe && !en_marcha && !(edad is SinDatos) && !abandonado(existe, en_marcha, edad)
}

pub open spec fn salud(existe: bool, en_marcha: bool, edad: Edad, registros: int) -> Seq<char> {
    if abandonado(existe, en_marcha, edad) {
        "STALE_LOCK"@
    } else if en_marcha {
        "SYNCING"@
    } else if registros == 0 {
        "EMPTY"@
    } else {
        "OK"@
    }
}

/// La salud del sistema y si hay que borrar el bloqueo.
pub fn get_health(existe: bool, en_marcha: bool, edad: &Edad, registros: i64) -> (r: (
    &'static str,
    bool,
))
    ensures
        r.0@ == salud(existe, en_marcha, *edad, registros as int),
        r.1 == se_borra(existe, en_marcha, *edad),
{
    let reciente = match edad {
        Edad::Segundos(s) => *s <= 2,
        _ => false,
    };
    let legible = match edad {
        Edad::SinDatos => false,
        _ => true,
    };
    let huerfano = existe && !en_marcha;
    let status = if huerfano && reciente {
        "STALE_LOCK"
    } else if en_marcha {
        "SYNCING"
    } else if registros == 0 {
        "EMPTY"
    } else {
        "OK"
    };
    (status, huerfano && legible && !reciente)
}

// ---------------------------------------------------------------------------
// Ajustes
// ---------------------------------------------------------------------------

/// Los ajustes como los ve el panel. Las claves que no se ensenan van vacias.
#[derive(Debug, Clone)]
pub struct AppSettings {
    pub supabase_url: String,
    pub supabase_key: String,
    pub supabase_service_role_configured: bool,
    pub supabase_table: String,
    pub supabase_configured: bool,
    pub intranet_user: String,
    pub intranet_pass: String,
    pub generado_por: String,
    pub allowed_lines: String,
    pub auto_sync: bool,
    pub app_retention_years: u32,
    pub supabase_retention_years: u32,
    pub supabase_retention_days: u32,
    pub last_supabase_sync: Option<String>,
    pub auto_daily_capture: bool,
    pub capture_times: Vec<String>,
    pub db_path: String,
}

/// Lo que el panel ve siempre igual de unos ajustes. En los anos de conservacion
/// de Supabase va la cuenta de dias en vigor.
pub open spec fn refleja(s: AppSettings, cfg: AppConfig, p: Programa, db_path: Seq<char>) -> bool {
    &&& s.supabase_url@ == cfg.supabase.url@
    &&& s.supabase_service_role_configured == (p.service_role_key@.len() > 0)
    &&& s.supabase_table@ == config::SUPABASE_TABLE@
    &&& s.supabase_configured == cfg.supabase.configurado()
    &&& s.intranet_pass@.len() == 0
    &&& s.generado_por@ == cfg.generado_por@
    &&& s.allowed_lines@ == texto::unido(texto::textos(cfg.allowed_lines@), ", "@)
    &&& s.auto_sync == cfg.auto_sync
    &&& s.app_retention_years == p.app_retention_years
    &&& s.supabase_retention_years == p.dias_conservados()
    &&& s.supabase_retention_days == p.supabase_retention_days
    &&& models::texto_opcional(s.last_supabase_sync) == models::texto_opcional(
        cfg.last_supabase_sync,
    )
    &&& s.auto_daily_capture == p.auto_daily_capture
    &&& texto::textos(s.capture_times@) == texto::textos(p.capture_times@)
    &&& s.db_path@ == db_path
}

fn copiar_opcion(o: &Option<String>) -> (r: Option<String>)
    ensures
        models::texto_opcional(r) == models::texto_opcional(*o),
{
    match o {
        Some(s) => Some(s.clone()),
        None => None,
    }
}

fn reflejar(cfg: &AppConfig, p: &Programa, key: String, user: String, db_path: &str) -> (r:
    AppSettings)
    ensures
        refleja(r, *cfg, *p, db_path@),
        r.supabase_key@ == key@,
        r.intranet_user@ == user@,
{
    AppSettings {
        supabase_url: cfg.supabase.url.clone(),
        supabase_key: key,
        supabase_service_role_configured: p.service_role_key.as_str().unicode_len() > 0,
        supabase_table: config::SUPABASE_TABLE.to_owned(),
        supabase_configured: cfg.supabase.is_configured(),
        intranet_user: user,
        intranet_pass: String::new(),
        generado_por: cfg.generado_por.clone(),
        allowed_lines: texto::unir(&cfg.allowed_lines, ", "),
        auto_sync: cfg.auto_sync,
        app_retention_years: p.app_retention_years,
        supabase_retention_years: p.supabase_retention_days_effective(),
        supabase_retention_days: p.supabase_retention_days,
        last_supabase_sync: copiar_opcion(&cfg.last_supabase_sync),
        auto_daily_capture: p.auto_daily_capture,
        capture_times: config::copiar_textos(&p.capture_times),
        db_path: db_path.to_owned(),
    }
}

/// Los ajustes guardados. El usuario de la intranet es el guardado o, si no hay, el
/// del entorno.
pub fn get_settings(cfg: &AppConfig, p: &Programa, entorno: &str, db_path: &str) -> (r: AppSettings)
    ensures
        refleja(r, *cfg, *p, db_path@),
        r.supabase_key@ == cfg.supabase.key@,
        r.intranet_user@ == config::credencial(cfg.intranet.user@, entorno@),
{
    let user = if cfg.intranet.user.as_str().unicode_len() == 0 {
        entorno.to_owned()
    } else {
        cfg.intranet.user.clone()
    };
    reflejar(cfg, p, cfg.supabase.key.clone(), user, db_path)
}

/// Lo que se rellena en el panel al cambiar los ajustes.
pub struct Formulario {
    pub supabase_url: String,
    pub supabase_key: String,
    pub intranet_user: String,
    pub intranet_pass: String,
    pub generado_por: String,
    pub allowed_lines: String,
    pub auto_sync: bool,
    pub app_retention_years: u32,
    pub supabase_retention_years: u32,
    pub supabase_retention_days: u32,
    pub auto_daily_capture: bool,
    pub capture_times: Vec<String>,
}

/// Las lineas de una lista separada por comas: sin blancos, en mayusculas y sin
/// huecos.
pub open spec fn lineas_escritas(ps: Seq<Seq<char>>) -> Seq<Seq<char>>
    decreases ps.len(),
{
    if ps.len() == 0 {
        seq![]
    } else {
        let previas = lineas_escritas(ps.drop_last());
        let l = texto::mayusculas(texto::recortado(ps.last()));
        if l.len() == 0 {
            previas
        } else {
            previas.push(l)
        }
    }
}

pub fn leer_lineas(s: &str) -> (r: Vec<String>)
    ensures
        texto::textos(r@) == lineas_escritas(texto::partes(s@, ',')),
{
    let ps = texto::partir(s, ',');
    let ghost vs = texto::textos(ps@);
    let mut r: Vec<String> = Vec::new();
    let mut i: usize = 0;
    assert(vs.take(0) =~= Seq::<Seq<char>>::empty());
    assert(texto::textos(r@) =~= Seq::<Seq<char>>::empty());
    while i < ps.len()
        invariant
            0 <= i <= ps@.len(),
            vs == texto::textos(ps@),
            texto::textos(r@) == lineas_escritas(vs.take(i as int)),
        decreases ps@.len() - i,
    {
        assert(vs.take(i + 1).drop_last() =~= vs.take(i as int));
        assert(vs[i as int] == ps@[i as int]@);
        let t = texto::recortar(ps[i].as_str());
        let l = t.as_str().to_uppercase();
        let ghost antes = texto::textos(r@);
        let ghost x = l@;
        if l.as_str().unicode_len() > 0 {
            r.push(l);
            assert(texto::textos(r@) =~= antes.push(x));
        }
        i = i + 1;
    }
    assert(vs.take(i as int) =~= vs);
    r
}

fn en_blanco(s: &str) -> (r: bool)
    ensures
        r == (texto::recortado(s@).len() == 0),
{
    let t = texto::recortar(s);
    t.as_str().unicode_len() == 0
}

/// `cfg` y `p` son los ajustes `antes` y `antes_p` tras aplicarles un formulario. Las
/// claves que se dejan en blanco y las horas vacias no cambian.
pub open spec fn aplicado(
    antes: AppConfig,
    antes_p: Programa,
    f: Formulario,
    cfg: AppConfig,
    p: Programa,
) -> bool {
    &&& cfg.supabase.url@ == f.supabase_url@
    &&& cfg.supabase.key@ == (if texto::recortado(f.supabase_key@).len() == 0 {
        antes.supabase.key@
    } else {
        f.supabase_key@
    })
    &&& cfg.intranet.user@ == f.intranet_user@
    &&& cfg.intranet.pass@ == (if texto::recortado(f.intranet_pass@).len() == 0 {
        antes.intranet.pass@
    } else {
        f.intranet_pass@
    })
    &&& cfg.generado_por@ == f.generado_por@
    &&& texto::textos(cfg.allowed_lines@) == lineas_escritas(texto::partes(f.allowed_lines@, ','))
    &&& cfg.auto_sync == f.auto_sync
    &&& cfg.data_retention_years == antes.data_retention_years
    &&& cfg.last_supabase_sync == antes.last_supabase_sync
    &&& p.service_role_key == antes_p.service_role_key
    &&& p.app_retention_years == f.app_retention_years
    &&& p.supabase_retention_years == f.supabase_retention_years
    &&& p.supabase_retention_days == f.supabase_retention_days
    &&& p.auto_daily_capture == f.auto_daily_capture
    &&& texto::textos(p.capture_times@) == (if f.capture_times@.len() == 0 {
        texto::textos(antes_p.capture_times@)
    } else {
        texto::textos(f.capture_times@)
    })
}

/// Aplica un formulario.
pub fn save_settings(cfg: &mut AppConfig, p: &mut Programa, f: Formulario)
    ensures
        aplicado(*old(cfg), *old(p), f, *final(cfg), *final(p)),
{
    cfg.supabase.url = f.supabase_url;
    if !en_blanco(f.supabase_key.as_str()) {
        cfg.supabase.key = f.supabase_key;
    }
    cfg.intranet.user = f.intranet_user;
    if !en_blanco(f.intranet_pass.as_str()) {
        cfg.intranet.pass = f.intranet_pass;
    }
    cfg.generado_por = f.generado_por;
    cfg.allowed_lines = leer_lineas(f.allowed_lines.as_str());
    cfg.auto_sync = f.auto_sync;
    p.app_retention_years = f.app_retention_years;
    p.supabase_retention_years = f.supabase_retention_years;
    p.supabase_retention_days = f.supabase_retention_days;
    p.auto_daily_capture = f.auto_daily_capture;
    if f.capture_times.len() > 0 {
        p.capture_times = f.capture_times;
    }
}

/// Los ajustes que se leen tras guardar un formulario son los del formulario; la
/// contrasena no se ensena nunca.
pub proof fn ley_guardado_se_lee(
    antes: AppConfig,
    antes_p: Programa,
    f: Formulario,
    cfg: AppConfig,
    p: Programa,
    s: AppSettings,
    db_path: Seq<char>,
)
    requires
        aplicado(antes, antes_p, f, cfg, p),
        refleja(s, cfg, p, db_path),
    ensures
        s.supabase_url@ == f.supabase_url@,
        s.generado_por@ == f.generado_por@,
        s.allowed_lines@ == texto::unido(
            lineas_escritas(texto::partes(f.allowed_lines@, ',')),
            ", "@,
        ),
        s.auto_sync == f.auto_sync,
        s.app_retention_years == f.app_retention_years,
        s.supabase_retention_days == f.supabase_retention_days,
        s.auto_daily_capture == f.auto_daily_capture,
        f.capture_times@.len() > 0 ==> texto::textos(s.capture_times@) == texto::textos(
            f.capture_times@,
        ),
        s.supabase_service_role_configured == (antes_p.service_role_key@.len() > 0),
        s.intranet_pass@.len() == 0,
{
}

/// La lista de lineas que ensena el panel, guardada tal cual, deja las mismas lineas.
pub proof fn ley_lineas_ida_y_vuelta(ls: Seq<Seq<char>>)
    requires
        ls.len() > 0,
        forall|i: int|
            0 <= i < ls.len() ==> (#[trigger] ls[i]).len() > 0 && texto::recortado(ls[i]) == ls[i]
                && texto::mayusculas(ls[i]) == ls[i] && !ls[i].contains(','),
    ensures
        lineas_escritas(texto::partes(texto::unido(ls, ", "@), ',')) == ls,
    decreases ls.len(),
{
    reveal_strlit(", ");
    let l = ls.last();
    assert(ls[ls.len() - 1] == l);
    assert(lineas_escritas(seq![]) =~= Seq::<Seq<char>>::empty());
    if ls.len() == 1 {
        lema_una_parte(l);
        let ps = seq![l];
        assert(ps.drop_last() =~= Seq::<Seq<char>>::empty());
        assert(lineas_escritas(ps) =~= seq![l]);
        assert(ls =~= seq![l]);
    } else {
        let previas = ls.drop_last();
        assert forall|i: int| 0 <= i < previas.len() implies (#[trigger] previas[i]).len() > 0
            && texto::recortado(previas[i]) == previas[i] && texto::mayusculas(previas[i])
            == previas[i] && !previas[i].contains(',') by {
            assert(previas[i] == ls[i]);
        }
        ley_lineas_ida_y_vuelta(previas);
        let u = texto::unido(previas, ", "@);
        let r = seq![' '] + l;
        assert(", "@ =~= seq![',', ' ']);
        assert(u + ", "@ + l =~= u + seq![','] + r);
        texto::lema_partes_suma(seq![], u, r, ',');
        assert(!r.contains(',')) by {
            assert forall|i: int| 0 <= i < r.len() implies #[trigger] r[i] != ',' by {
                if i > 0 {
                    assert(r[i] == l[i - 1]);
                }
            }
        }
        lema_una_parte(r);
        let ps = texto::partes(u, ',') + seq![r];
        assert(ps.drop_last() =~= texto::partes(u, ','));
        assert(ps.last() == r);
        assert(r.drop_first() =~= l);
        assert(texto::recortado(r) == texto::recortado(l));
        assert(lineas_escritas(ps) == previas.push(l));
        assert(previas.push(l) =~= ls);
    }
}

/// Un texto sin comas es una sola parte.
proof fn lema_una_parte(s: Seq<char>)
    requires
        !s.contains(','),
    ensures
        texto::partes(s, ',') == seq![s],
{
    assert forall|i: int| 0 <= i < s.len() implies #[trigger] s[i] != ',' by {}
    texto::lema_partes_tramo(seq![], s, seq![], ',');
    assert(s + Seq::<char>::empty() =~= s);
    assert(Seq::<char>::empty() + s =~= s);
}

/// Los ajustes recien guardados, sin ninguna clave.
pub fn ajustes_guardados(cfg: &AppConfig, p: &Programa, db_path: &str) -> (r: AppSettings)
    ensures
        refleja(r, *cfg, *p, db_path@),
        r.supabase_key@.len() == 0,
        r.intranet_user@ == cfg.intranet.user@,
{
    reflejar(cfg, p, String::new(), cfg.intranet.user.clone(), db_path)
}

/// La clave de servicio que se guarda: ninguna si se deja en blanco. Devuelve lo que
/// se le dice a quien la cambia.
pub fn save_service_role_key(p: &mut Programa, key: String) -> (r: String)
    ensures
        final(p).service_role_key@ == (if texto::recortado(key@).len() == 0 {
            seq![]
        } else {
            key@
        }),
        final(p).app_retention_years == old(p).app_retention_years,
        final(p).supabase_retention_years == old(p).supabase_retention_years,
        final(p).supabase_retention_days == old(p).supabase_retention_days,
        final(p).auto_daily_capture == old(p).auto_daily_capture,
        final(p).capture_times == old(p).capture_times,
        r@ == "Service role key "@ + (if final(p).service_role_key@.len() > 0 {
            "ha sido"@
        } else {
            "ha sido eliminado"@
        }) + " configurado"@,
{
    p.service_role_key = if en_blanco(key.as_str()) {
        String::new()
    } else {
        key
    };
    let que = if p.service_role_key.as_str().unicode_len() > 0 {
        "ha sido"
    } else {
        "ha sido eliminado"
    };
    texto::mas(texto::mas("Service role key ".to_owned(), que), " configurado")
}

/// Los ajustes de fabrica, sin credenciales ni marca de subida; se conservan las
/// lineas, los anos que se guardan y la sincronizacion al abrir.
pub fn admin_reset(cfg: &AppConfig, p: &Programa) -> (r: (AppConfig, Programa))
    ensures
        r.0.supabase.url@ == config::DEFAULT_SUPABASE_URL@,
        r.0.supabase.key@ == config::DEFAULT_SUPABASE_KEY@,
        r.0.intranet.user@.len() == 0,
        r.0.intranet.pass@.len() == 0,
        r.0.generado_por@.len() == 0,
        texto::textos(r.0.allowed_lines@) == texto::textos(cfg.allowed_lines@),
        r.0.auto_sync == cfg.auto_sync,
        r.0.data_retention_years == 4,
        r.0.last_supabase_sync is None,
        r.1.service_role_key@.len() == 0,
        r.1.app_retention_years == p.app_retention_years,
        r.1.supabase_retention_years == p.supabase_retention_years,
        r.1.supabase_retention_days == 0,
        !r.1.auto_daily_capture,
        r.1.capture_times@.len() == 0,
{
    let mut nueva = AppConfig::default_app();
    nueva.allowed_lines = config::copiar_textos(&cfg.allowed_lines);
    nueva.auto_sync = cfg.auto_sync;
    let mut programa = Programa::nuevo();
    programa.app_retention_years = p.app_retention_years;
    programa.supabase_retention_years = p.supabase_retention_years;
    (nueva, programa)
}

/// Tras reponer los ajustes no queda ninguna credencial: la subida no esta
/// configurada.
pub proof fn ley_reset_sin_credenciales(cfg: AppConfig)
    requires
        cfg.supabase.key@ == config::DEFAULT_SUPABASE_KEY@,
    ensures
        !cfg.supabase.configurado(),
{
    reveal_strlit("TU_ANON_KEY");
    assert(cfg.supabase.key@.subrange(0, 11) =~= "TU_ANON_KEY"@);
    assert(texto::aparece(cfg.supabase.key@, "TU_ANON_KEY"@, 0));
}

// ---------------------------------------------------------------------------
// Permiso
// ---------------------------------------------------------------------------

/// Permite borrar solo a quien entra en la intranet; `c` es lo que dio entrar.
pub fn autorizar(c: Result<(), String>) -> (r: Result<(), String>)
    ensures
        r is Ok <==> c is Ok,
        c matches Err(e) ==> (r matches Err(m) && m@ == "No autorizado: "@ + e@),
{
    match c {
        Ok(_) => Ok(()),
        Err(e) => Err(texto::mas("No autorizado: ".to_owned(), e.as_str())),
    }
}

// ---------------------------------------------------------------------------
// Leyes
// ---------------------------------------------------------------------------

/// El panel ve un estado en cada fase: parado antes y despues, subiendo, con error o en marcha.
pub proof fn ley_estado(phase: CapturePhase)
    ensures
        estado_de(phase) == "idle"@ <==> phase == CapturePhase::Idle || phase == CapturePhase::Done,
        estado_de(phase) == "uploading"@ <==> phase == CapturePhase::Uploading,
        estado_de(phase) == "error"@ <==> phase == CapturePhase::Error,
        estado_de(phase) == "syncing"@ <==> phase == CapturePhase::CheckingLock || phase
            == CapturePhase::Downloading || phase == CapturePhase::Parsing || phase
            == CapturePhase::Normalizing,
{
    reveal_strlit("idle");
    reveal_strlit("syncing");
    reveal_strlit("uploading");
    reveal_strlit("error");
    assert("idle"@.len() == 4 && "error"@.len() == 5 && "syncing"@.len() == 7 && "uploading"@.len()
        == 9);
}

/// Poner un estado cambia el mensaje y el avance por los dados; al empezar se apunta la hora y
/// se borra la de fin, al parar se apunta la de fin y se conserva la de comienzo, y lo demas no
/// cambia.
pub proof fn ley_con_estado(
    s: ProgressVista,
    state: Seq<char>,
    msg: Seq<char>,
    progress: u32,
    ahora: u64,
)
    ensures
        ({
            let r = con_estado(s, state, msg, progress, ahora);
            &&& r.message == msg && r.progress == progress
            &&& r.current_item == s.current_item && r.eta_secs == s.eta_secs
            &&& state == "idle"@ ==> r.phase == CapturePhase::Idle && r.finished_at == Some(ahora)
                && r.started_at == s.started_at
            &&& state == "uploading"@ ==> r.phase == CapturePhase::Uploading && r.started_at == Some(
                ahora,
            ) && r.finished_at is None
            &&& state == "syncing"@ ==> r.phase == CapturePhase::Downloading && r.started_at == Some(
                ahora,
            ) && r.finished_at is None
            &&& state == "error"@ ==> r.started_at == s.started_at && r.finished_at
                == s.finished_at
        }),
{
    reveal_strlit("idle");
    reveal_strlit("syncing");
    reveal_strlit("uploading");
    reveal_strlit("error");
    assert("idle"@.len() == 4 && "error"@.len() == 5 && "syncing"@.len() == 7 && "uploading"@.len()
        == 9);
}

/// La salud y el bloqueo. Con una captura en marcha no se toca; un bloqueo sin nadie se da por
/// abandonado si acaba de cambiar y se borra si hace mas de dos segundos o no se sabe cuando.
pub proof fn ley_salud(existe: bool, en_marcha: bool, edad: Edad, registros: int)
    requires
        registros >= 0,
    ensures
        ({
            let s = salud(existe, en_marcha, edad, registros);
            let reciente = edad matches Edad::Segundos(n) && n <= 2;
            &&& en_marcha ==> s == "SYNCING"@ && !se_borra(existe, en_marcha, edad)
            &&& !en_marcha && existe && reciente ==> s == "STALE_LOCK"@ && !se_borra(
                existe,
                en_marcha,
                edad,
            )
            &&& !en_marcha && !(existe && reciente) ==> s == (if registros == 0 {
                "EMPTY"@
            } else {
                "OK"@
            })
            &&& se_borra(existe, en_marcha, edad) <==> existe && !en_marcha && !reciente
                && !(edad is SinDatos)
        }),
{
}

/// Las lineas que se escriben en el panel se separan por comas, sin blancos y en mayusculas, en
/// su orden, y los huecos no cuentan.
pub proof fn ley_lineas_escritas(ps: Seq<Seq<char>>, l: Seq<char>)
    requires
        texto::sin_bordes_blancos(l),
    ensures
        texto::mayusculas(l).len() > 0 ==> lineas_escritas(ps.push(l)) == lineas_escritas(ps).push(
            texto::mayusculas(l),
        ),
        texto::mayusculas(l).len() == 0 ==> lineas_escritas(ps.push(l)) == lineas_escritas(ps),
        lineas_escritas(seq![]).len() == 0,
{
    let nada = Seq::<char>::empty();
    texto::ley_recorte(nada, l, nada);
    assert(ps.push(l).drop_last() =~= ps);
}

/// Guardar un formulario pone lo que dice, salvo las claves en blanco y las horas vacias, que se
/// quedan como estaban; la clave de servicio, la marca de subida y los anos que se guardan en el
/// equipo de antes no se tocan.
pub proof fn ley_formulario(
    antes: AppConfig,
    antes_p: Programa,
    f: Formulario,
    cfg: AppConfig,
    p: Programa,
)
    requires
        aplicado(antes, antes_p, f, cfg, p),
    ensures
        texto::todo_blanco(f.supabase_key@) ==> cfg.supabase.key@ == antes.supabase.key@,
        !texto::todo_blanco(f.supabase_key@) ==> cfg.supabase.key@ == f.supabase_key@,
        texto::todo_blanco(f.intranet_pass@) ==> cfg.intranet.pass@ == antes.intranet.pass@,
        !texto::todo_blanco(f.intranet_pass@) ==> cfg.intranet.pass@ == f.intranet_pass@,
        cfg.supabase.url@ == f.supabase_url@ && cfg.intranet.user@ == f.intranet_user@,
        cfg.generado_por@ == f.generado_por@ && cfg.auto_sync == f.auto_sync,
        cfg.last_supabase_sync == antes.last_supabase_sync,
        cfg.data_retention_years == antes.data_retention_years,
        p.service_role_key == antes_p.service_role_key,
        p.app_retention_years == f.app_retention_years,
        p.supabase_retention_years == f.supabase_retention_years,
        p.supabase_retention_days == f.supabase_retention_days,
        p.auto_daily_capture == f.auto_daily_capture,
        f.capture_times@.len() == 0 ==> texto::textos(p.capture_times@) == texto::textos(
            antes_p.capture_times@,
        ),
        f.capture_times@.len() > 0 ==> texto::textos(p.capture_times@) == texto::textos(
            f.capture_times@,
        ),
{
    lema_en_blanco(f.supabase_key@);
    lema_en_blanco(f.intranet_pass@);
}

proof fn lema_en_blanco(s: Seq<char>)
    ensures
        texto::recortado(s).len() == 0 <==> texto::todo_blanco(s),
{
    let nada = Seq::<char>::empty();
    if texto::todo_blanco(s) {
        texto::ley_recorte(s, nada, nada);
        assert(s + nada + nada =~= s);
    }
    let p = texto::ley_recorte_parte(s);
    let t = texto::recortado(s);
    if t.len() == 0 {
        assert forall|i: int| 0 <= i < s.len() implies texto::es_blanco(#[trigger] s[i]) by {
            assert(s == p.0 + t + p.1);
            if i < p.0.len() {
                assert(s[i] == p.0[i]);
            } else {
                assert(s[i] == p.1[i - p.0.len()]);
            }
        }
    }
}

/// Lo que el panel ensena es lo guardado, campo a campo.
pub proof fn ley_refleja(s: AppSettings, cfg: AppConfig, p: Programa, db_path: Seq<char>)
    requires
        refleja(s, cfg, p, db_path),
    ensures
        s.supabase_url@ == cfg.supabase.url@ && s.generado_por@ == cfg.generado_por@,
        s.supabase_configured == cfg.supabase.configurado(),
        s.auto_sync == cfg.auto_sync && s.auto_daily_capture == p.auto_daily_capture,
        s.app_retention_years == p.app_retention_years,
        s.supabase_retention_years == p.dias_conservados(),
        s.supabase_retention_days == p.supabase_retention_days,
        models::texto_opcional(s.last_supabase_sync) == models::texto_opcional(
            cfg.last_supabase_sync,
        ),
        texto::textos(s.capture_times@) == texto::textos(p.capture_times@),
        s.db_path@ == db_path,
        s.supabase_table@ == "ventas"@,
        s.intranet_pass@.len() == 0,
        s.supabase_service_role_configured <==> p.service_role_key@.len() > 0,
{
}

} // verus!
