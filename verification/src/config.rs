//! Ajustes de la aplicacion: credenciales, lineas permitidas y rutas.

use crate::models;
use crate::texto;
use vstd::prelude::*;

verus! {

pub const INTRANET_URL: &'static str = "http://intranet.cipsa.com.pe/intranetcipsa";

pub const LOGIN_URL: &'static str = "http://intranet.cipsa.com.pe/intranetcipsa/login.aspx";

pub const APPS_URL: &'static str = "http://intranet.cipsa.com.pe/intranetcipsa/aplicaionesA.aspx";

pub const STATS_URL: &'static str = "http://intranet.cipsa.com.pe/ESTADISTICASVENTAS/Default.aspx";

pub const SUPABASE_TABLE: &'static str = "ventas";

pub const DEFAULT_SUPABASE_URL: &'static str = "https://TU_SUPABASE.supabase.co";

pub const DEFAULT_SUPABASE_KEY: &'static str = "TU_ANON_KEY";

pub const MONTHS_BACK: u32 = 12;

pub const SLEEP_BETWEEN_MONTHS: u64 = 3;

// ---------------------------------------------------------------------------
// Variables de entorno
// ---------------------------------------------------------------------------

/// La variable que define una linea de un archivo `.env`: nada en las lineas
/// vacias, en los comentarios, sin signo igual o sin nombre; el valor va sin las
/// comillas que lo rodeen.
pub open spec fn variable(linea: Seq<char>) -> Option<(Seq<char>, Seq<char>)> {
    let l = texto::recortado(linea);
    if l.len() == 0 || l[0] == '#' {
        None
    } else {
        match texto::partido(l, '=') {
            None => None,
            Some(p) => {
                let k = texto::recortado(p.0);
                if k.len() == 0 {
                    None
                } else {
                    Some(
                        (
                            k,
                            texto::recortado_car(
                                texto::recortado_car(texto::recortado(p.1), '"'),
                                '\'',
                            ),
                        ),
                    )
                }
            },
        }
    }
}

pub open spec fn variables(lineas: Seq<Seq<char>>) -> Seq<(Seq<char>, Seq<char>)>
    decreases lineas.len(),
{
    if lineas.len() == 0 {
        seq![]
    } else {
        let previas = variables(lineas.drop_last());
        match variable(lineas.last()) {
            Some(p) => previas.push(p),
            None => previas,
        }
    }
}

pub open spec fn pares(v: Seq<(String, String)>) -> Seq<(Seq<char>, Seq<char>)> {
    v.map_values(|p: (String, String)| (p.0@, p.1@))
}

fn variable_de(linea: &str) -> (r: Option<(String, String)>)
    ensures
        match r {
            Some(p) => variable(linea@) == Some((p.0@, p.1@)),
            None => variable(linea@) is None,
        },
{
    let l = texto::recortar(linea);
    let v = texto::caracteres(l.as_str());
    if v.len() == 0 || v[0] == '#' {
        return None;
    }
    match texto::partir_una(l.as_str(), '=') {
        None => None,
        Some((k, val)) => {
            let k = texto::recortar(k.as_str());
            if k.as_str().unicode_len() == 0 {
                return None;
            }
            let val = texto::recortar(val.as_str());
            let val = texto::recortar_car(val.as_str(), '"');
            Some((k, texto::recortar_car(val.as_str(), '\'')))
        },
    }
}

/// Las variables que define el contenido de un archivo `.env`, en su orden.
pub fn variables_env(content: &str) -> (r: Vec<(String, String)>)
    ensures
        pares(r@) == variables(texto::lineas(content@)),
{
    let lineas = texto::separar_lineas(content);
    let ghost ls = texto::textos(lineas@);
    let mut r: Vec<(String, String)> = Vec::new();
    let mut i: usize = 0;
    assert(ls.take(0) =~= Seq::<Seq<char>>::empty());
    assert(pares(r@) =~= variables(ls.take(0)));
    while i < lineas.len()
        invariant
            0 <= i <= lineas@.len(),
            ls == texto::textos(lineas@),
            pares(r@) == variables(ls.take(i as int)),
        decreases lineas@.len() - i,
    {
        let ghost antes = r@;
        assert(ls.take(i + 1).drop_last() =~= ls.take(i as int));
        match variable_de(lineas[i].as_str()) {
            Some(p) => {
                r.push(p);
                assert(pares(r@) =~= pares(antes).push((p.0@, p.1@)));
            },
            None => {},
        }
        i = i + 1;
    }
    assert(ls.take(i as int) =~= ls);
    r
}

/// Ninguna de las `n` primeras asignaciones es de `nombre`.
pub open spec fn sin_asignar(vs: Seq<(Seq<char>, Seq<char>)>, n: int, nombre: Seq<char>) -> bool {
    forall|j: int| 0 <= j < n ==> (#[trigger] vs[j]).0 != nombre
}

/// De las `n` primeras asignaciones, las que se hacen: las de un nombre que no estuviera
/// definido, y de las de un mismo nombre la primera.
pub open spec fn asignadas(
    vs: Seq<(Seq<char>, Seq<char>)>,
    definidas: Seq<bool>,
    n: nat,
) -> Seq<(Seq<char>, Seq<char>)>
    decreases n,
{
    if n == 0 {
        seq![]
    } else {
        let previas = asignadas(vs, definidas, (n - 1) as nat);
        if !definidas[n - 1] && sin_asignar(vs, n - 1, vs[n - 1].0) {
            previas.push(vs[n - 1])
        } else {
            previas
        }
    }
}

/// Las variables que se definen, dadas las de un archivo `.env` y si el nombre de cada una
/// ya estaba definido.
pub fn por_definir(vs: &Vec<(String, String)>, definidas: &Vec<bool>) -> (r: Vec<
    (String, String),
>)
    requires
        definidas@.len() == vs@.len(),
    ensures
        pares(r@) == asignadas(pares(vs@), definidas@, vs@.len()),
{
    let ghost ps = pares(vs@);
    let mut r: Vec<(String, String)> = Vec::new();
    let mut i: usize = 0;
    assert(pares(r@) =~= Seq::<(Seq<char>, Seq<char>)>::empty());
    while i < vs.len()
        invariant
            0 <= i <= vs@.len(),
            definidas@.len() == vs@.len(),
            ps == pares(vs@),
            pares(r@) == asignadas(ps, definidas@, i as nat),
        decreases vs@.len() - i,
    {
        let mut nueva: bool = true;
        let mut j: usize = 0;
        while j < i
            invariant
                0 <= j <= i < vs@.len(),
                ps == pares(vs@),
                nueva == sin_asignar(ps, j as int, ps[i as int].0),
            decreases i - j,
        {
            assert(ps[j as int] == (vs@[j as int].0@, vs@[j as int].1@));
            assert(ps[i as int] == (vs@[i as int].0@, vs@[i as int].1@));
            if texto::iguales(vs[j].0.as_str(), vs[i].0.as_str()) {
                nueva = false;
            }
            j = j + 1;
        }
        let ghost antes = r@;
        assert(ps[i as int] == (vs@[i as int].0@, vs@[i as int].1@));
        if !definidas[i] && nueva {
            let nombre = vs[i].0.clone();
            let valor = vs[i].1.clone();
            r.push((nombre, valor));
            assert(pares(r@) =~= pares(antes).push(ps[i as int]));
        }
        i = i + 1;
    }
    r
}

/// Un nombre que ya estaba definido conserva su valor, y ninguno se define dos veces.
pub proof fn ley_no_se_redefine(vs: Seq<(Seq<char>, Seq<char>)>, definidas: Seq<bool>, n: nat)
    requires
        n <= vs.len(),
        definidas.len() == vs.len(),
    ensures
        ({
            let a = asignadas(vs, definidas, n);
            &&& forall|i: int|
                0 <= i < a.len() ==> exists|k: int|
                    0 <= k < n && !definidas[k] && #[trigger] vs[k] == #[trigger] a[i]
            &&& forall|i: int, j: int|
                0 <= i < j < a.len() ==> (#[trigger] a[i]).0 != (#[trigger] a[j]).0
        }),
    decreases n,
{
    if n > 0 {
        ley_no_se_redefine(vs, definidas, (n - 1) as nat);
        let previas = asignadas(vs, definidas, (n - 1) as nat);
        let a = asignadas(vs, definidas, n);
        assert forall|i: int| 0 <= i < a.len() implies exists|k: int|
            0 <= k < n && !definidas[k] && #[trigger] vs[k] == #[trigger] a[i] by {
            if i < previas.len() {
                assert(a[i] == previas[i]);
                let k = choose|k: int|
                    0 <= k < n - 1 && !definidas[k] && #[trigger] vs[k] == previas[i];
                assert(vs[k] == a[i]);
            } else {
                assert(vs[n - 1] == a[i]);
            }
        }
        assert forall|i: int, j: int| 0 <= i < j < a.len() implies (#[trigger] a[i]).0 != (
        #[trigger] a[j]).0 by {
            if j < previas.len() {
                assert(a[i] == previas[i]);
                assert(a[j] == previas[j]);
            } else {
                assert(a[i] == previas[i]);
                let k = choose|k: int|
                    0 <= k < n - 1 && !definidas[k] && #[trigger] vs[k] == previas[i];
                assert(vs[k].0 != vs[n - 1].0);
            }
        }
    }
}

// ---------------------------------------------------------------------------
// Ajustes
// ---------------------------------------------------------------------------

#[derive(Debug, Clone)]
pub struct SupabaseConfig {
    pub url: String,
    pub key: String,
}

impl SupabaseConfig {
    pub open spec fn configurado(self) -> bool {
        &&& self.url@.len() > 0
        &&& !texto::contiene(self.url@, "TU_SUPABASE"@)
        &&& self.key@.len() > 0
        &&& !texto::contiene(self.key@, "TU_ANON_KEY"@)
    }

    pub fn empty() -> (r: SupabaseConfig)
        ensures
            r.url@ == DEFAULT_SUPABASE_URL@,
            r.key@ == DEFAULT_SUPABASE_KEY@,
            !r.configurado(),
    {
        let r = SupabaseConfig {
            url: DEFAULT_SUPABASE_URL.to_owned(),
            key: DEFAULT_SUPABASE_KEY.to_owned(),
        };
        proof {
            reveal_strlit("TU_ANON_KEY");
            assert(r.key@.subrange(0, 11) =~= "TU_ANON_KEY"@);
            assert(texto::aparece(r.key@, "TU_ANON_KEY"@, 0));
        }
        r
    }

    pub fn is_configured(&self) -> (r: bool)
        ensures
            r == self.configurado(),
    {
        proof {
            reveal_strlit("TU_SUPABASE");
            reveal_strlit("TU_ANON_KEY");
        }
        self.url.as_str().unicode_len() > 0 && !texto::contiene_texto(
            self.url.as_str(),
            "TU_SUPABASE",
        ) && self.key.as_str().unicode_len() > 0 && !texto::contiene_texto(
            self.key.as_str(),
            "TU_ANON_KEY",
        )
    }
}

#[derive(Debug, Clone)]
pub struct IntranetConfig {
    pub user: String,
    pub pass: String,
}

impl Default for IntranetConfig {
    fn default() -> (r: IntranetConfig)
        ensures
            r.user@.len() == 0,
            r.pass@.len() == 0,
    {
        IntranetConfig { user: String::new(), pass: String::new() }
    }
}

#[derive(Debug, Clone)]
pub struct AppConfig {
    pub supabase: SupabaseConfig,
    pub intranet: IntranetConfig,
    /// Responsable del reporte.
    pub generado_por: String,
    pub allowed_lines: Vec<String>,
    /// Sincronizar al abrir la aplicacion.
    pub auto_sync: bool,
    /// Anos de datos que se conservan en Supabase; cero, todos.
    pub data_retention_years: u32,
    /// Momento de la ultima subida a Supabase, en UTC.
    pub last_supabase_sync: Option<String>,
}

impl AppConfig {
    pub fn default_app() -> (r: AppConfig)
        ensures
            r.supabase.url@ == DEFAULT_SUPABASE_URL@,
            r.supabase.key@ == DEFAULT_SUPABASE_KEY@,
            r.intranet.user@.len() == 0,
            r.intranet.pass@.len() == 0,
            r.generado_por@.len() == 0,
            texto::textos(r.allowed_lines@) == lineas_por_defecto(),
            !r.auto_sync,
            r.data_retention_years == 4,
            r.last_supabase_sync is None,
    {
        AppConfig {
            supabase: SupabaseConfig::empty(),
            intranet: IntranetConfig::default(),
            generado_por: String::new(),
            allowed_lines: default_allowed_lines(),
            auto_sync: false,
            data_retention_years: 4,
            last_supabase_sync: None,
        }
    }
}

/// La credencial que se usa: la preferente o, si no hay, la guardada.
pub open spec fn credencial(entorno: Seq<char>, guardada: Seq<char>) -> Seq<char> {
    if entorno.len() > 0 {
        entorno
    } else {
        guardada
    }
}

pub fn effective_intranet_user(entorno: String, cfg: &AppConfig) -> (r: String)
    ensures
        r@ == credencial(entorno@, cfg.intranet.user@),
{
    if entorno.as_str().unicode_len() > 0 {
        return entorno;
    }
    cfg.intranet.user.clone()
}

pub fn effective_intranet_pass(entorno: String, cfg: &AppConfig) -> (r: String)
    ensures
        r@ == credencial(entorno@, cfg.intranet.pass@),
{
    if entorno.as_str().unicode_len() > 0 {
        return entorno;
    }
    cfg.intranet.pass.clone()
}

pub fn get_supabase_url(cfg: &AppConfig) -> (r: String)
    ensures
        r@ == cfg.supabase.url@,
{
    cfg.supabase.url.clone()
}

pub fn get_supabase_key(cfg: &AppConfig) -> (r: String)
    ensures
        r@ == cfg.supabase.key@,
{
    cfg.supabase.key.clone()
}

/// Ajustes de la automatizacion y de la conservacion de datos.
#[derive(Debug, Clone)]
pub struct Programa {
    /// Clave de servicio de Supabase; vacia si no hay.
    pub service_role_key: String,
    /// Anos de datos que se conservan en el equipo; cero, todos.
    pub app_retention_years: u32,
    /// Anos de datos que se conservan en Supabase; cero, todos.
    pub supabase_retention_years: u32,
    /// Dias de datos que se conservan en Supabase; cero, los que digan los anos.
    pub supabase_retention_days: u32,
    pub auto_daily_capture: bool,
    /// Horas de captura, en `hh:mm`.
    pub capture_times: Vec<String>,
}

impl Programa {
    /// Dias que se conservan en Supabase: los que se digan o los de los anos que se
    /// digan.
    pub open spec fn dias_conservados(self) -> int {
        if self.supabase_retention_days > 0 {
            self.supabase_retention_days as int
        } else if self.supabase_retention_years * 365 > u32::MAX {
            u32::MAX as int
        } else {
            self.supabase_retention_years * 365
        }
    }

    pub fn supabase_retention_days_effective(&self) -> (r: u32)
        ensures
            r == self.dias_conservados(),
    {
        if self.supabase_retention_days > 0 {
            return self.supabase_retention_days;
        }
        let dias: u64 = self.supabase_retention_years as u64 * 365;
        if dias > u32::MAX as u64 {
            u32::MAX
        } else {
            dias as u32
        }
    }

    pub fn nuevo() -> (r: Programa)
        ensures
            r.service_role_key@.len() == 0,
            r.app_retention_years == 0,
            r.supabase_retention_years == 4,
            r.supabase_retention_days == 0,
            !r.auto_daily_capture,
            r.capture_times@.len() == 0,
    {
        Programa {
            service_role_key: String::new(),
            app_retention_years: 0,
            supabase_retention_years: 4,
            supabase_retention_days: 0,
            auto_daily_capture: false,
            capture_times: Vec::new(),
        }
    }
}

/// La clave con que se sube: la de servicio o, si no hay, la comun.
pub fn get_supabase_service_key(cfg: &AppConfig, programa: &Programa) -> (r: String)
    ensures
        r@ == credencial(programa.service_role_key@, cfg.supabase.key@),
{
    if programa.service_role_key.as_str().unicode_len() > 0 {
        programa.service_role_key.clone()
    } else {
        cfg.supabase.key.clone()
    }
}

/// La linea que deja en la bitacora un cambio de ajustes.
pub open spec fn asiento(momento: Seq<char>, cfg: AppConfig) -> Seq<char> {
    "["@ + momento + "] config saved by "@ + (if cfg.generado_por@.len() == 0 {
        "sistema"@
    } else {
        cfg.generado_por@
    }) + " \u{2014} allowed_lines="@ + texto::decimal(cfg.allowed_lines@.len()) + ", retention="@
        + texto::decimal(cfg.data_retention_years as nat) + "y, supabase="@ + (
    if cfg.supabase.configurado() {
        "true"@
    } else {
        "false"@
    })
}

pub fn asiento_config(momento: &str, cfg: &AppConfig) -> (r: String)
    ensures
        r@ == asiento(momento@, *cfg),
{
    let quien = if cfg.generado_por.as_str().unicode_len() == 0 {
        "sistema"
    } else {
        cfg.generado_por.as_str()
    };
    let listo = if cfg.supabase.is_configured() {
        "true"
    } else {
        "false"
    };
    let r = texto::mas(texto::mas("[".to_owned(), momento), "] config saved by ");
    let r = texto::mas(texto::mas(r, quien), " \u{2014} allowed_lines=");
    let r = texto::mas(r, texto::texto_usize(cfg.allowed_lines.len()).as_str());
    let r = texto::mas(r, ", retention=");
    let r = texto::mas(r, texto::texto_u64(cfg.data_retention_years as u64).as_str());
    texto::mas(texto::mas(r, "y, supabase="), listo)
}

// ---------------------------------------------------------------------------
// Lineas permitidas
// ---------------------------------------------------------------------------

pub open spec fn lineas_por_defecto() -> Seq<Seq<char>> {
    seq![
        "01"@,
        "02"@,
        "09"@,
        "11"@,
        "14"@,
        "72"@,
        "73"@,
        "75"@,
        "76"@,
        "77"@,
        "78"@,
        "79"@,
        "81"@,
        "85"@,
        "99"@,
        "MA"@,
        "CA"@,
        "AD"@,
        "CB"@,
        "CC"@,
        "CD"@,
        "CE"@,
        "CF"@,
        "CG"@,
    ]
}

pub fn default_allowed_lines() -> (r: Vec<String>)
    ensures
        texto::textos(r@) == lineas_por_defecto(),
{
    let r: Vec<String> = vec![
        "01".to_owned(),
        "02".to_owned(),
        "09".to_owned(),
        "11".to_owned(),
        "14".to_owned(),
        "72".to_owned(),
        "73".to_owned(),
        "75".to_owned(),
        "76".to_owned(),
        "77".to_owned(),
        "78".to_owned(),
        "79".to_owned(),
        "81".to_owned(),
        "85".to_owned(),
        "99".to_owned(),
        "MA".to_owned(),
        "CA".to_owned(),
        "AD".to_owned(),
        "CB".to_owned(),
        "CC".to_owned(),
        "CD".to_owned(),
        "CE".to_owned(),
        "CF".to_owned(),
        "CG".to_owned(),
    ];
    assert(texto::textos(r@) =~= lineas_por_defecto());
    r
}

/// Las lineas en vigor: las de los ajustes o, si no hay ninguna, las de fabrica.
pub open spec fn lineas_en_vigor(cfg: AppConfig) -> Seq<Seq<char>> {
    if cfg.allowed_lines@.len() == 0 {
        lineas_por_defecto()
    } else {
        texto::textos(cfg.allowed_lines@)
    }
}

/// Copia de una lista de textos.
pub fn copiar_textos(v: &Vec<String>) -> (r: Vec<String>)
    ensures
        texto::textos(r@) == texto::textos(v@),
{
    let mut r: Vec<String> = Vec::new();
    let mut i: usize = 0;
    while i < v.len()
        invariant
            0 <= i <= v@.len(),
            r@.len() == i,
            forall|k: int| 0 <= k < i ==> (#[trigger] r@[k])@ == v@[k]@,
        decreases v@.len() - i,
    {
        r.push(v[i].clone());
        i = i + 1;
    }
    assert(texto::textos(r@) =~= texto::textos(v@));
    r
}

pub fn effective_allowed_lines(cfg: &AppConfig) -> (r: Vec<String>)
    ensures
        texto::textos(r@) == lineas_en_vigor(*cfg),
{
    if cfg.allowed_lines.len() == 0 {
        default_allowed_lines()
    } else {
        copiar_textos(&cfg.allowed_lines)
    }
}

/// Los dos ultimos caracteres del codigo de linea; nada si no tiene tantos.
pub open spec fn sufijo_linea(id_linea: Seq<char>) -> Option<Seq<char>> {
    if id_linea.len() < 2 {
        None
    } else {
        Some(id_linea.skip(id_linea.len() - 2))
    }
}

/// La linea esta entre las permitidas: lo esta su sufijo.
pub open spec fn permitida(lineas: Seq<Seq<char>>, id_linea: Seq<char>) -> bool {
    sufijo_linea(id_linea) is Some && lineas.contains(sufijo_linea(id_linea)->0)
}

fn sufijo_de(id_linea: &str) -> (r: Option<String>)
    ensures
        match r {
            Some(s) => sufijo_linea(id_linea@) == Some(s@),
            None => sufijo_linea(id_linea@) is None,
        },
{
    let v = texto::caracteres(id_linea);
    let n: usize = v.len();
    if n < 2 {
        None
    } else {
        let s = texto::cadena(&v, n - 2, n);
        assert(s@ =~= id_linea@.skip(n - 2));
        Some(s)
    }
}

/// Decide si una linea esta entre las de `lineas`.
pub fn linea_en(lineas: &Vec<String>, id_linea: &str) -> (r: bool)
    ensures
        r == permitida(texto::textos(lineas@), id_linea@),
{
    match sufijo_de(id_linea) {
        None => false,
        Some(suffix) => {
            let ghost ls = texto::textos(lineas@);
            let mut i: usize = 0;
            while i < lineas.len()
                invariant
                    0 <= i <= lineas@.len(),
                    ls == texto::textos(lineas@),
                    sufijo_linea(id_linea@) == Some(suffix@),
                    forall|k: int| 0 <= k < i ==> #[trigger] ls[k] != suffix@,
                decreases lineas@.len() - i,
            {
                if texto::iguales(lineas[i].as_str(), suffix.as_str()) {
                    assert(ls[i as int] == suffix@);
                    return true;
                }
                i = i + 1;
            }
            false
        },
    }
}

pub fn is_allowed_line(id_linea: &str, cfg: &AppConfig) -> (r: bool)
    ensures
        r == permitida(lineas_en_vigor(*cfg), id_linea@),
{
    linea_en(&effective_allowed_lines(cfg), id_linea)
}

// ---------------------------------------------------------------------------
// Rutas
// ---------------------------------------------------------------------------

/// Los componentes de la carpeta de datos, bajo la de configuracion del usuario o,
/// si no la hay, bajo la de trabajo.
pub open spec fn ruta_datos(config_dir: Option<Seq<char>>) -> Seq<Seq<char>> {
    seq![
        match config_dir {
            Some(d) => d,
            None => "."@,
        },
        "g360-db-ventas"@,
        "data"@,
    ]
}

pub fn data_dir(config_dir: Option<String>) -> (r: Vec<String>)
    ensures
        texto::textos(r@) == ruta_datos(models::texto_opcional(config_dir)),
{
    let ghost pedido = models::texto_opcional(config_dir);
    let base = match config_dir {
        Some(d) => d,
        None => ".".to_owned(),
    };
    let r: Vec<String> = vec![base, "g360-db-ventas".to_owned(), "data".to_owned()];
    assert(texto::textos(r@) =~= ruta_datos(pedido));
    r
}

fn bajo(dir: Vec<String>, nombre: &str) -> (r: Vec<String>)
    ensures
        texto::textos(r@) == texto::textos(dir@).push(nombre@),
{
    let mut r = dir;
    let ghost antes = r@;
    r.push(nombre.to_owned());
    assert(texto::textos(r@) =~= texto::textos(antes).push(nombre@));
    r
}

pub fn raw_dir(config_dir: Option<String>) -> (r: Vec<String>)
    ensures
        texto::textos(r@) == ruta_datos(models::texto_opcional(config_dir)).push("raw"@),
{
    bajo(data_dir(config_dir), "raw")
}

pub fn db_path(config_dir: Option<String>) -> (r: Vec<String>)
    ensures
        texto::textos(r@) == ruta_datos(models::texto_opcional(config_dir)).push("historial.db"@),
{
    bajo(data_dir(config_dir), "historial.db")
}

pub fn logs_dir(config_dir: Option<String>) -> (r: Vec<String>)
    ensures
        texto::textos(r@) == ruta_datos(models::texto_opcional(config_dir)).push("logs"@),
{
    bajo(data_dir(config_dir), "logs")
}

pub fn config_file_path(config_dir: Option<String>) -> (r: Vec<String>)
    ensures
        texto::textos(r@) == ruta_datos(models::texto_opcional(config_dir)).push("config.json"@),
{
    bajo(data_dir(config_dir), "config.json")
}

// ---------------------------------------------------------------------------
// Leyes
// ---------------------------------------------------------------------------

/// Una linea `nombre=valor` define el nombre con todo lo que sigue al primer igual, sin las
/// comillas que lo rodeen.
pub proof fn ley_variable(k: Seq<char>, v: Seq<char>)
    requires
        k.len() > 0,
        texto::sin_bordes_blancos(k),
        !k.contains('='),
        k[0] != '#',
        texto::sin_bordes_blancos(v),
        v.len() > 0 ==> v[0] != '"' && v[0] != '\'' && v.last() != '"' && v.last() != '\'',
    ensures
        variable(k + seq!['='] + v) == Some((k, v)),
        v.len() > 0 ==> variable(k + seq!['='] + (seq!['"'] + v + seq!['"'])) == Some((k, v)),
        v.len() > 0 ==> variable(k + seq!['='] + (seq!['\''] + v + seq!['\''])) == Some((k, v)),
{
    lema_asignacion(k, v);
    if v.len() > 0 {
        let d = seq!['"'] + v + seq!['"'];
        let s = seq!['\''] + v + seq!['\''];
        lema_asignacion(k, d);
        lema_asignacion(k, s);
        lema_entre_comillas(v, '"');
        lema_entre_comillas(v, '\'');
        texto::ley_recorte_car(v, '\'');
        texto::ley_recorte_car(s, '"');
        texto::ley_recorte_car(v, '"');
    } else {
        assert(v =~= Seq::<char>::empty());
    }
}

/// Una linea vacia, un comentario o una linea sin igual no define nada.
pub proof fn ley_linea_muda(l: Seq<char>, resto: Seq<char>)
    ensures
        variable(seq!['#'] + resto) is None,
        !l.contains('=') ==> variable(l) is None,
        texto::todo_blanco(l) ==> variable(l) is None,
{
    lema_comentario(resto);
    let p = texto::ley_recorte_parte(l);
    let t = texto::recortado(l);
    if !l.contains('=') && t.len() > 0 {
        texto::ley_partido(t, '=');
        if let Some((x, y)) = texto::partido(t, '=') {
            assert(t[x.len() as int] == '=');
            assert(l[(p.0.len() + x.len()) as int] == '=');
        }
    }
    if texto::todo_blanco(l) {
        let nada = Seq::<char>::empty();
        texto::ley_recorte(l, nada, nada);
        assert(l + nada + nada =~= l);
    }
}

proof fn lema_comentario(resto: Seq<char>)
    ensures
        variable(seq!['#'] + resto) is None,
{
    let c = seq!['#'] + resto;
    let p = texto::ley_recorte_parte(c);
    let t = texto::recortado(c);
    assert(c[0] == '#');
    if p.0.len() > 0 {
        assert(c[0] == p.0[0]);
        assert(texto::es_blanco(p.0[0]));
    } else if t.len() > 0 {
        assert(c[0] == t[0]);
    } else {
        assert(c[0] == p.1[0]);
        assert(texto::es_blanco(p.1[0]));
    }
}

proof fn lema_asignacion(k: Seq<char>, v: Seq<char>)
    requires
        k.len() > 0,
        texto::sin_bordes_blancos(k),
        !k.contains('='),
        k[0] != '#',
        texto::sin_bordes_blancos(v),
    ensures
        variable(k + seq!['='] + v) == Some(
            (k, texto::recortado_car(texto::recortado_car(v, '"'), '\'')),
        ),
{
    let nada = Seq::<char>::empty();
    let l = k + seq!['='] + v;
    assert(l[0] == k[0]);
    if v.len() > 0 {
        assert(l.last() == v.last());
    } else {
        assert(l.last() == '=');
    }
    texto::ley_recorte(nada, l, nada);
    texto::ley_recorte(nada, k, nada);
    texto::ley_recorte(nada, v, nada);
    texto::ley_partido(l, '=');
    let p = texto::partido(l, '=');
    assert(l.contains('=')) by {
        assert(l[k.len() as int] == '=');
    }
    let (a, b) = p->0;
    assert(l == a + seq!['='] + b);
    if a.len() < k.len() {
        assert(l[a.len() as int] == '=');
        assert(l[a.len() as int] == k[a.len() as int]);
        assert(k.contains('='));
    } else if a.len() > k.len() {
        assert(a[k.len() as int] == l[k.len() as int]);
        assert(a.contains('='));
    }
    assert(a =~= k) by {
        assert(l.take(k.len() as int) =~= k);
        assert(l.take(k.len() as int) =~= a);
    }
    assert(b =~= v) by {
        assert(l.skip(k.len() as int + 1) =~= v);
        assert(l.skip(k.len() as int + 1) =~= b);
    }
}

proof fn lema_entre_comillas(v: Seq<char>, c: char)
    requires
        v.len() > 0,
        v[0] != c,
        v.last() != c,
    ensures
        texto::recortado_car(seq![c] + v + seq![c], c) == v,
{
    let s = seq![c] + v + seq![c];
    let t = v + seq![c];
    assert(s.drop_first() =~= t);
    assert(t[0] == v[0]);
    assert(texto::sin_car_izq(t, c) == t);
    assert(texto::sin_car_izq(s, c) == t);
    assert(t.drop_last() =~= v);
    assert(texto::sin_car_der(v, c) == v);
}

/// Las variables de un archivo son las de sus lineas, en su orden.
pub proof fn ley_variables(ls: Seq<Seq<char>>, l: Seq<char>)
    ensures
        variable(l) is None ==> variables(ls.push(l)) == variables(ls),
        variable(l) matches Some(p) ==> variables(ls.push(l)) == variables(ls).push(p),
        variables(seq![]).len() == 0,
{
    assert(ls.push(l).drop_last() =~= ls);
}

/// Una variable se define con la primera linea que la nombra, y solo si no lo estaba.
pub proof fn ley_primera_linea(vs: Seq<(Seq<char>, Seq<char>)>, definidas: Seq<bool>, n: nat, i: int)
    requires
        0 <= i < n <= vs.len(),
        definidas.len() == vs.len(),
        !definidas[i],
        forall|j: int| 0 <= j < i ==> (#[trigger] vs[j]).0 != vs[i].0,
    ensures
        asignadas(vs, definidas, n).contains(vs[i]),
    decreases n,
{
    let previas = asignadas(vs, definidas, (n - 1) as nat);
    let todas = asignadas(vs, definidas, n);
    if i < n - 1 {
        ley_primera_linea(vs, definidas, (n - 1) as nat, i);
        let k = choose|k: int| 0 <= k < previas.len() && previas[k] == vs[i];
        assert(todas[k] == vs[i]);
    } else {
        assert(todas[previas.len() as int] == vs[i]);
    }
}

/// La subida esta configurada si hay direccion y clave y ninguna es la de muestra.
pub proof fn ley_configurado(c: SupabaseConfig, a: Seq<char>, b: Seq<char>)
    ensures
        c.url@.len() == 0 || c.key@.len() == 0 ==> !c.configurado(),
        c.url@ == a + "TU_SUPABASE"@ + b ==> !c.configurado(),
        c.key@ == a + "TU_ANON_KEY"@ + b ==> !c.configurado(),
        c.url@.len() > 0 && c.key@.len() > 0 && !texto::contiene(c.url@, "TU_SUPABASE"@)
            && !texto::contiene(c.key@, "TU_ANON_KEY"@) ==> c.configurado(),
{
    texto::ley_contiene(a, "TU_SUPABASE"@, b);
    texto::ley_contiene(a, "TU_ANON_KEY"@, b);
}

/// Se usa la credencial preferente si la hay, y la guardada si no.
pub proof fn ley_credencial(a: Seq<char>, b: Seq<char>)
    ensures
        a.len() > 0 ==> credencial(a, b) == a,
        credencial(seq![], b) == b,
{
}

/// Se conservan los dias que se digan o, si no se dicen, los de los anos: trescientos sesenta y
/// cinco por ano. Cero es todo.
pub proof fn ley_dias_conservados(p: Programa)
    ensures
        p.supabase_retention_days > 0 ==> p.dias_conservados() == p.supabase_retention_days,
        p.supabase_retention_days == 0 && p.supabase_retention_years <= 11_000_000
            ==> p.dias_conservados() == 365 * p.supabase_retention_years,
        p.dias_conservados() == 0 <==> p.supabase_retention_days == 0 && p.supabase_retention_years
            == 0,
        p.dias_conservados() <= u32::MAX,
{
}

/// Las lineas en vigor son las de los ajustes, si hay alguna, y si no las de fabrica, que son
/// veinticuatro de dos caracteres.
pub proof fn ley_lineas_en_vigor(cfg: AppConfig)
    ensures
        cfg.allowed_lines@.len() > 0 ==> lineas_en_vigor(cfg) == texto::textos(cfg.allowed_lines@),
        cfg.allowed_lines@.len() == 0 ==> lineas_en_vigor(cfg) == lineas_por_defecto(),
        lineas_por_defecto().len() == 24,
        lineas_por_defecto()[0] == "01"@ && lineas_por_defecto()[1] == "02"@,
        lineas_por_defecto()[12] == "81"@ && lineas_por_defecto()[14] == "99"@,
        lineas_por_defecto()[23] == "CG"@,
{
}

/// Una linea esta permitida si lo estan sus dos ultimos caracteres, lleve lo que lleve delante;
/// con menos de dos no lo esta.
pub proof fn ley_permitida(lineas: Seq<Seq<char>>, a: Seq<char>, x: Seq<char>)
    requires
        x.len() == 2,
    ensures
        permitida(lineas, a + x) <==> lineas.contains(x),
        permitida(lineas, x) <==> lineas.contains(x),
        a.len() < 2 ==> !permitida(lineas, a),
        permitida(lineas.push(x), a + x),
        !permitida(seq![], a),
{
    let s = a + x;
    assert(s.skip(s.len() - 2) =~= x);
    assert(x.skip(0) =~= x);
    let t = lineas.push(x);
    assert(t[lineas.len() as int] == x);
    assert(t.contains(x));
}

/// El asiento de un cambio dice cuando, quien y cuantas lineas quedan.
pub proof fn ley_asiento(momento: Seq<char>, cfg: AppConfig)
    ensures
        texto::contiene(asiento(momento, cfg), momento),
        cfg.generado_por@.len() > 0 ==> texto::contiene(asiento(momento, cfg), cfg.generado_por@),
        texto::termina(asiento(momento, cfg), "true"@) <==> cfg.supabase.configurado(),
{
    reveal_strlit("true");
    reveal_strlit("false");
    let r = asiento(momento, cfg);
    let quien = if cfg.generado_por@.len() == 0 {
        "sistema"@
    } else {
        cfg.generado_por@
    };
    let listo = if cfg.supabase.configurado() {
        "true"@
    } else {
        "false"@
    };
    let cola = " \u{2014} allowed_lines="@ + texto::decimal(cfg.allowed_lines@.len())
        + ", retention="@ + texto::decimal(cfg.data_retention_years as nat) + "y, supabase="@
        + listo;
    let a = "["@;
    let b = "] config saved by "@ + quien + cola;
    texto::ley_contiene(a, momento, b);
    assert(a + momento + b =~= r);
    let c = a + momento + "] config saved by "@;
    texto::ley_contiene(c, quien, cola);
    assert(c + quien + cola =~= r);
    let n = r.len();
    assert(r[n - 1] == 'e');
    if cfg.supabase.configurado() {
        assert(r.subrange(n - 4, n as int) =~= "true"@);
    } else {
        assert(r[n - 2] == 's');
        if texto::termina(r, "true"@) {
            assert(r.subrange(n - 4, n as int)[2] == 'u');
        }
    }
}

/// Los datos van en la carpeta de la aplicacion, dentro de la de configuracion o, si no la hay,
/// de la actual.
pub proof fn ley_ruta_de_datos(d: Seq<char>)
    ensures
        ruta_datos(Some(d)) == seq![d, "g360-db-ventas"@, "data"@],
        ruta_datos(None) == seq!["."@, "g360-db-ventas"@, "data"@],
{
}

/// El asiento acaba con las lineas que quedan, los anos que se guardan y si hay subida.
pub proof fn ley_asiento_entero(momento: Seq<char>, cfg: AppConfig)
    requires
        cfg.generado_por@.len() > 0,
    ensures
        asiento(momento, cfg) == ("["@ + momento + "] config saved by "@ + cfg.generado_por@) + (
        " \u{2014} allowed_lines="@ + texto::decimal(cfg.allowed_lines@.len()) + ", retention="@
            + texto::decimal(cfg.data_retention_years as nat) + "y, supabase="@ + (
        if cfg.supabase.configurado() {
            "true"@
        } else {
            "false"@
        })),
{
    let a = "["@ + momento + "] config saved by "@ + cfg.generado_por@;
    let b = " \u{2014} allowed_lines="@ + texto::decimal(cfg.allowed_lines@.len())
        + ", retention="@ + texto::decimal(cfg.data_retention_years as nat) + "y, supabase="@ + (
    if cfg.supabase.configurado() {
        "true"@
    } else {
        "false"@
    });
    assert(asiento(momento, cfg) =~= a + b);
}

/// Lo que vale de fabrica: un ano de meses, tres segundos entre uno y otro, y la tabla de ventas.
/// La direccion y la clave de fabrica no configuran nada.
pub proof fn ley_de_fabrica(c: SupabaseConfig)
    ensures
        MONTHS_BACK == 12,
        SLEEP_BETWEEN_MONTHS == 3,
        SUPABASE_TABLE@ == "ventas"@,
        c.url@ == DEFAULT_SUPABASE_URL@ ==> !c.configurado(),
        c.key@ == DEFAULT_SUPABASE_KEY@ ==> !c.configurado(),
{
    reveal_strlit("https://TU_SUPABASE.supabase.co");
    reveal_strlit("TU_SUPABASE");
    let u = DEFAULT_SUPABASE_URL@;
    assert(u.subrange(8, 19) =~= "TU_SUPABASE"@);
    assert(texto::aparece(u, "TU_SUPABASE"@, 8));
    let nada = Seq::<char>::empty();
    texto::ley_contiene(nada, "TU_ANON_KEY"@, nada);
    assert(nada + "TU_ANON_KEY"@ + nada =~= "TU_ANON_KEY"@);
}

} // verus!
