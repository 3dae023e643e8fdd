//! Estado visible de una captura.

use crate::texto;
use vstd::prelude::*;

verus! {

#[derive(Debug, Clone, Copy, PartialEq, Eq, Structural)]
pub enum CapturePhase {
    Idle,
    CheckingLock,
    Downloading,
    Parsing,
    Normalizing,
    Uploading,
    Done,
    Error,
}

impl CapturePhase {
    pub open spec fn nombre(self) -> Seq<char> {
        match self {
            CapturePhase::Idle => "idle"@,
            CapturePhase::CheckingLock => "checking_lock"@,
            CapturePhase::Downloading => "downloading"@,
            CapturePhase::Parsing => "parsing"@,
            CapturePhase::Normalizing => "normalizing"@,
            CapturePhase::Uploading => "uploading"@,
            CapturePhase::Done => "done"@,
            CapturePhase::Error => "error"@,
        }
    }

    /// La captura ha acabado, bien o mal.
    pub open spec fn terminal(self) -> bool {
        self == CapturePhase::Done || self == CapturePhase::Error
    }

    pub fn to_text(&self) -> (r: String)
        ensures
            r@ == self.nombre(),
    {
        match self {
            CapturePhase::Idle => "idle".to_owned(),
            CapturePhase::CheckingLock => "checking_lock".to_owned(),
            CapturePhase::Downloading => "downloading".to_owned(),
            CapturePhase::Parsing => "parsing".to_owned(),
            CapturePhase::Normalizing => "normalizing".to_owned(),
            CapturePhase::Uploading => "uploading".to_owned(),
            CapturePhase::Done => "done".to_owned(),
            CapturePhase::Error => "error".to_owned(),
        }
    }
}

/// Avance de una captura. `progress` son los 32 bits de su numero en coma flotante
/// de precision simple (IEEE 754, `binary32`), de cero a uno.
#[derive(Debug, Clone)]
pub struct ProgressState {
    pub phase: CapturePhase,
    pub message: String,
    pub progress: u32,
    pub started_at: Option<u64>,
    pub finished_at: Option<u64>,
    pub current_item: String,
    /// Segundos que se estima que quedan, si hay con que estimarlo.
    pub eta_secs: Option<u64>,
}

#[verifier::ext_equal]
pub struct ProgressVista {
    pub phase: CapturePhase,
    pub message: Seq<char>,
    pub progress: u32,
    pub started_at: Option<u64>,
    pub finished_at: Option<u64>,
    pub current_item: Seq<char>,
    pub eta_secs: Option<u64>,
}

impl View for ProgressState {
    type V = ProgressVista;

    open spec fn view(&self) -> ProgressVista {
        ProgressVista {
            phase: self.phase,
            message: self.message@,
            progress: self.progress,
            started_at: self.started_at,
            finished_at: self.finished_at,
            current_item: self.current_item@,
            eta_secs: self.eta_secs,
        }
    }
}

impl ProgressVista {
    pub open spec fn iniciado(self, msg: Seq<char>, ahora: u64) -> ProgressVista {
        ProgressVista {
            phase: CapturePhase::Downloading,
            message: msg,
            progress: 0,
            started_at: Some(ahora),
            finished_at: None,
            current_item: seq![],
            eta_secs: self.eta_secs,
        }
    }

    pub open spec fn en_fase(self, phase: CapturePhase, msg: Seq<char>, ahora: u64) -> ProgressVista {
        ProgressVista {
            phase,
            message: msg,
            finished_at: if phase.terminal() {
                Some(ahora)
            } else {
                self.finished_at
            },
            ..self
        }
    }
}

impl ProgressState {
    pub fn new() -> (r: ProgressState)
        ensures
            r@ == (ProgressVista {
                phase: CapturePhase::Idle,
                message: "Listo"@,
                progress: 0,
                started_at: None,
                finished_at: None,
                current_item: seq![],
                eta_secs: None,
            }),
    {
        ProgressState {
            phase: CapturePhase::Idle,
            message: "Listo".to_owned(),
            progress: 0,
            started_at: None,
            finished_at: None,
            current_item: String::new(),
            eta_secs: None,
        }
    }

    /// Empieza una captura en el momento `ahora`.
    pub fn set_start_at(&mut self, msg: &str, ahora: u64)
        ensures
            final(self)@ == old(self)@.iniciado(msg@, ahora),
    {
        self.phase = CapturePhase::Downloading;
        self.message = msg.to_owned();
        self.progress = 0;
        self.started_at = Some(ahora);
        self.finished_at = None;
        self.current_item = String::new();
        assert(self@ =~= old(self)@.iniciado(msg@, ahora));
    }

    /// Empieza una captura ahora.
    pub fn set_start(&mut self, msg: &str)
        ensures
            exists|ahora: u64| final(self)@ == #[trigger] old(self)@.iniciado(msg@, ahora),
    {
        let ahora: u64 = now_secs();
        self.set_start_at(msg, ahora);
    }

    /// Pasa a una fase en el momento `ahora`, que se guarda si la fase es la ultima.
    pub fn set_phase_at(&mut self, phase: CapturePhase, msg: &str, ahora: u64)
        ensures
            final(self)@ == old(self)@.en_fase(phase, msg@, ahora),
    {
        self.phase = phase;
        self.message = msg.to_owned();
        if phase == CapturePhase::Done || phase == CapturePhase::Error {
            self.finished_at = Some(ahora);
        }
    }

    /// Pasa a una fase ahora.
    pub fn set_phase(&mut self, phase: CapturePhase, msg: &str)
        ensures
            exists|ahora: u64| final(self)@ == #[trigger] old(self)@.en_fase(phase, msg@, ahora),
    {
        let ahora: u64 = now_secs();
        self.set_phase_at(phase, msg, ahora);
    }

    /// Pone el avance y, si no esta vacio, el mensaje.
    pub fn update_progress(&mut self, pct: u32, msg: &str)
        ensures
            final(self)@ == (ProgressVista {
                progress: pct,
                message: if msg@.len() == 0 {
                    old(self)@.message
                } else {
                    msg@
                },
                ..old(self)@
            }),
    {
        self.progress = pct;
        if msg.unicode_len() > 0 {
            self.message = msg.to_owned();
        }
    }

    pub fn set_current(&mut self, item: &str)
        ensures
            final(self)@ == (ProgressVista { current_item: item@, ..old(self)@ }),
    {
        self.current_item = item.to_owned();
    }

    /// Segundos que lleva la captura en el momento `ahora`.
    pub fn transcurridos(&self, ahora: u64) -> (r: u64)
        ensures
            r == (match self.started_at {
                Some(t) => if ahora >= t {
                    ahora - t
                } else {
                    0
                },
                None => 0,
            }),
    {
        match self.started_at {
            Some(t) => if ahora >= t {
                ahora - t
            } else {
                0
            },
            None => 0,
        }
    }
}

impl Default for ProgressState {
    fn default() -> (r: ProgressState)
        ensures
            r@.phase == CapturePhase::Idle,
            r@.message == "Listo"@,
            r@.progress == 0,
            r@.started_at is None,
            r@.finished_at is None,
            r@.current_item.len() == 0,
            r@.eta_secs is None,
    {
        ProgressState::new()
    }
}

/// Segundos desde el comienzo de 1970 (`std::time::SystemTime::now` y
/// `duration_since`). Nada se promete de la hora que es; un reloj anterior a 1970 da
/// cero.
#[verifier::external_body]
pub fn now_secs() -> u64 {
    std::time::SystemTime::now().duration_since(std::time::UNIX_EPOCH).map_or(
        0,
        |d| d.as_secs(),
    )
}

/// Minutos y segundos, con dos cifras.
pub open spec fn reloj(segundos: int) -> Seq<char> {
    texto::decimal_ancho((segundos / 60) as nat, 2) + ":"@ + texto::decimal_ancho(
        (segundos % 60) as nat,
        2,
    )
}

pub fn texto_reloj(segundos: u64) -> (r: String)
    ensures
        r@ == reloj(segundos as int),
{
    let m = texto::mas(texto::texto_ancho(segundos / 60, 2), ":");
    texto::mas(m, texto::texto_ancho(segundos % 60, 2).as_str())
}

/// Cada fase tiene su nombre, y dos distintas no lo comparten.
pub proof fn ley_nombres_de_fase(a: CapturePhase, b: CapturePhase)
    ensures
        a != b ==> a.nombre() != b.nombre(),
        a.terminal() <==> a == CapturePhase::Done || a == CapturePhase::Error,
{
    reveal_strlit("idle");
    reveal_strlit("checking_lock");
    reveal_strlit("downloading");
    reveal_strlit("parsing");
    reveal_strlit("normalizing");
    reveal_strlit("uploading");
    reveal_strlit("done");
    reveal_strlit("error");
    assert("idle"@[0] == 'i' && "done"@[0] == 'd' && "downloading"@[0] == 'd');
    assert("normalizing"@[0] == 'n');
    assert("idle"@.len() == 4 && "done"@.len() == 4 && "error"@.len() == 5);
    assert("parsing"@.len() == 7 && "uploading"@.len() == 9 && "checking_lock"@.len() == 13);
    assert("downloading"@.len() == 11 && "normalizing"@.len() == 11);
}

/// Al empezar se pone a cero lo de la captura anterior y se apunta la hora; al cambiar de fase
/// solo cambian la fase y el mensaje y, si es la ultima, la hora de fin.
pub proof fn ley_fases(s: ProgressVista, phase: CapturePhase, msg: Seq<char>, ahora: u64)
    ensures
        ({
            let i = s.iniciado(msg, ahora);
            &&& i.phase == CapturePhase::Downloading && i.message == msg && i.progress == 0
            &&& i.started_at == Some(ahora) && i.finished_at is None && i.current_item.len() == 0
            &&& i.eta_secs == s.eta_secs
        }),
        ({
            let f = s.en_fase(phase, msg, ahora);
            &&& f == (ProgressVista { phase, message: msg, finished_at: f.finished_at, ..s })
            &&& phase == CapturePhase::Done || phase == CapturePhase::Error ==> f.finished_at == Some(
                ahora,
            )
            &&& phase != CapturePhase::Done && phase != CapturePhase::Error ==> f.finished_at
                == s.finished_at
        }),
{
}

/// El reloj dice los minutos y los segundos que pasan de ellos.
pub proof fn ley_reloj(m: int, s: int)
    requires
        0 <= m,
        0 <= s < 60,
    ensures
        reloj(m * 60 + s) == texto::decimal_ancho(m as nat, 2) + seq![':'] + texto::decimal_ancho(
            s as nat,
            2,
        ),
{
    reveal_strlit(":");
    assert(":"@ =~= seq![':']);
    assert((m * 60 + s) / 60 == m);
    assert((m * 60 + s) % 60 == s);
}

} // verus!
