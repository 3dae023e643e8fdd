use g360_db_ventas::capture_state::CapturePhase;
use g360_db_ventas::fecha::{Fecha, MonthRange};
use g360_db_ventas::lote::{
    aviso_tras, detalle_fallo, dias_de, divisiones_de, es_caducado, es_enero, espera_item,
    evento_de, faltantes, fase_de_final, hay_que_convertir, hay_que_leer, inicio_item, paso_item, rango_dia,
    rango_sonda, rangos_trozos, seguir_corrida, toca_entrar, todos_completos, tras_intento, Aviso,
    Corrida, Desenlace, Evento, Final, Item, Lote, Obtenido, PasoDia, Pausa, Suceso,
};
use g360_db_ventas::mensajes::{
    elemento_intento, mensaje_completado, mensaje_conversion, mensaje_descargando,
    mensaje_elemento, mensaje_filas, mensaje_final, mensaje_inicio, mensaje_insertadas,
    mensaje_intento, mensaje_login_fallido, mensaje_no_responde, mensaje_parseando,
    mensaje_quedan, mensaje_recuento, mensaje_sin_cliente, mensaje_sin_respuesta,
};

fn mes() -> MonthRange {
    MonthRange {
        start: Fecha { anho: 2024, mes: 2, dia: 1 },
        end: Fecha { anho: 2024, mes: 2, dia: 29 },
        label: "2024-02".to_string(),
    }
}

const MAL: Evento = Evento::Error { caducado: false };

#[test]
fn bajada_directa() {
    assert_eq!(inicio_item(false), Item::Directo { intento: 1 });
    let (e, p) = paso_item(false, 29, inicio_item(false), Evento::Bueno);
    assert_eq!(e, Item::Fin { desenlace: Desenlace::Bajado });
    assert_eq!(p, Pausa { antes: 0, entrar: false, despues: 0 });
    let (e, p) = paso_item(false, 29, inicio_item(false), MAL);
    assert_eq!(e, Item::Directo { intento: 2 });
    assert_eq!(p.antes, 3);
    let (e, _) = paso_item(false, 29, Item::Directo { intento: 3 }, Evento::Malo);
    assert_eq!(e, Item::Dailies);
}

#[test]
fn servidor_caido() {
    let (e, _) = paso_item(false, 29, inicio_item(false), Evento::Error { caducado: true });
    assert_eq!(e, Item::Sonda { intento: 1 });
    let (f, _) = paso_item(false, 29, e, MAL);
    assert_eq!(f, Item::Fin { desenlace: Desenlace::Sistemico });
    let (f, _) = paso_item(false, 29, e, Evento::Bueno);
    assert_eq!(f, Item::Directo { intento: 2 });
}

#[test]
fn divisiones_sucesivas() {
    assert_eq!(divisiones_de(true), vec![4, 6, 10]);
    assert_eq!(divisiones_de(false), vec![2, 4, 6, 10]);
    assert_eq!(inicio_item(true), Item::Dailies);
    let (e, _) = paso_item(true, 31, Item::Dailies, Evento::Malo);
    assert_eq!(e, Item::Trozo { lista: 0, trozo: 0, intento: 1 });
    let (e, p) = paso_item(true, 31, e, MAL);
    assert_eq!(e, Item::Trozo { lista: 0, trozo: 0, intento: 2 });
    assert_eq!(p.antes, 2);
    let (e, _) = paso_item(true, 31, e, Evento::Malo);
    assert_eq!(e, Item::Trozo { lista: 1, trozo: 0, intento: 1 });
    let (e, _) = paso_item(true, 31, Item::Trozo { lista: 0, trozo: 3, intento: 1 }, Evento::Bueno);
    assert_eq!(e, Item::UnionTrozos { lista: 0 });
    let (f, _) = paso_item(true, 31, e, Evento::Bueno);
    assert_eq!(f, Item::Fin { desenlace: Desenlace::Recuperado });
    let (f, _) = paso_item(true, 31, Item::UnionTrozos { lista: 2 }, Evento::Malo);
    assert_eq!(f, Item::Dia { d: 0, ok: 0, seguidos: 0, paso: PasoDia::Mirar });
}

#[test]
fn union_de_diarios() {
    let (e, _) = paso_item(true, 31, Item::Dailies, Evento::Bueno);
    assert_eq!(e, Item::UnionDailies);
    let (e, _) = paso_item(true, 31, e, Evento::Bueno);
    assert_eq!(e, Item::Fin { desenlace: Desenlace::Recuperado });
    let (e, _) = paso_item(true, 31, Item::UnionDailies, Evento::Malo);
    assert_eq!(e, Item::Trozo { lista: 0, trozo: 0, intento: 1 });
    let mut l = Lote::nuevo();
    assert!(!l.cerrar("2024-01", Desenlace::Recuperado, &vec![]));
    assert_eq!((l.ok.len(), l.fail.len()), (1, 0));
}

#[test]
fn dia_a_dia() {
    let mirar = Item::Dia { d: 0, ok: 0, seguidos: 0, paso: PasoDia::Mirar };
    let (e, p) = paso_item(false, 2, mirar, Evento::Archivos { csv: true, xls: false });
    assert_eq!(e, Item::Dia { d: 1, ok: 1, seguidos: 0, paso: PasoDia::Mirar });
    assert_eq!(p.antes, 1);
    let (x, _) = paso_item(false, 2, mirar, Evento::Archivos { csv: false, xls: true });
    assert_eq!(x, Item::Dia { d: 0, ok: 0, seguidos: 0, paso: PasoDia::Xls });
    let (b, _) = paso_item(false, 2, e, Evento::Archivos { csv: false, xls: false });
    assert_eq!(b, Item::Dia { d: 1, ok: 1, seguidos: 0, paso: PasoDia::Bajar { intento: 1 } });
    let (b, p) = paso_item(false, 2, b, MAL);
    assert_eq!(b, Item::Dia { d: 1, ok: 1, seguidos: 0, paso: PasoDia::Bajar { intento: 2 } });
    assert_eq!(p, Pausa { antes: 2, entrar: true, despues: 0 });
    let (b, _) = paso_item(false, 2, b, MAL);
    assert_eq!(b, Item::Dia { d: 1, ok: 1, seguidos: 0, paso: PasoDia::Partir });
    let (b, _) = paso_item(false, 2, b, MAL);
    assert_eq!(b, Item::UnionDias);
    assert_eq!(
        paso_item(false, 2, b, Evento::Bueno).0,
        Item::Fin { desenlace: Desenlace::Recuperado }
    );
    assert_eq!(paso_item(false, 2, b, MAL).0, Item::Pagina);
    assert_eq!(
        paso_item(false, 2, Item::Pagina, MAL).0,
        Item::Fin { desenlace: Desenlace::Fallido }
    );
}

#[test]
fn dias_malos_seguidos() {
    let e = Item::Dia { d: 2, ok: 0, seguidos: 2, paso: PasoDia::Partir };
    let (f, p) = paso_item(false, 29, e, MAL);
    assert_eq!(f, Item::Dia { d: 3, ok: 0, seguidos: 3, paso: PasoDia::Mirar });
    assert_eq!(p, Pausa { antes: 15, entrar: true, despues: 1 });
    let e = Item::Dia { d: 5, ok: 0, seguidos: 5, paso: PasoDia::Partir };
    assert_eq!(paso_item(false, 29, e, MAL).0, Item::Pagina);
    let e = Item::Dia { d: 28, ok: 26, seguidos: 1, paso: PasoDia::Partir };
    assert_eq!(paso_item(false, 29, e, MAL).0, Item::Pagina);
    let e = Item::Dia { d: 28, ok: 27, seguidos: 0, paso: PasoDia::Partir };
    assert_eq!(paso_item(false, 29, e, MAL).0, Item::UnionDias);
}

#[test]
fn todo_elemento_acaba() {
    for enero in [false, true] {
        for ev in [MAL, Evento::Malo, Evento::Error { caducado: true }, Evento::Bueno] {
            let mut e = inicio_item(enero);
            let mut pasos = 0;
            while !matches!(e, Item::Fin { .. }) {
                e = paso_item(enero, 31, e, ev).0;
                pasos += 1;
                assert!(pasos < 400);
            }
        }
    }
}

#[test]
fn rangos_de_un_elemento() {
    assert!(es_enero("2024-01"));
    assert!(!es_enero("2024-10"));
    assert!(es_caducado("operation timed out"));
    assert!(!es_caducado("connection refused"));
    assert_eq!(dias_de(&mes()), 29);
    assert_eq!(rango_sonda(&mes()).label, "2024-02-01-probe");
    let t = rangos_trozos(&mes(), false, 0);
    assert_eq!(t.len(), 2);
    assert_eq!(t[0].end, Fecha { anho: 2024, mes: 2, dia: 15 });
    assert_eq!(t[1].start, Fecha { anho: 2024, mes: 2, dia: 16 });
    assert_eq!(t[1].end, Fecha { anho: 2024, mes: 2, dia: 29 });
    assert_eq!(rango_dia(&mes(), 28).label, "2024-02-29");
}

#[test]
fn dias_que_faltan() {
    assert!(todos_completos(&vec![Some(1001), Some(2000)]));
    assert!(!todos_completos(&vec![Some(1001), Some(1000)]));
    assert!(!todos_completos(&vec![]));
    let dias = vec![rango_dia(&mes(), 0), rango_dia(&mes(), 1), rango_dia(&mes(), 2)];
    let f = faltantes(&dias, &vec![None, Some(5000), Some(10)]);
    assert_eq!(f, vec!["2024-02-01", "2024-02-03"]);
    assert_eq!(
        detalle_fallo(&f),
        "faltan dias 2024-02-01,2024-02-03 \u{2014} sube XLS manual"
    );
    assert_eq!(detalle_fallo(&vec![]), "3 intentos + granular 2/4/6/10/dia fallo");
}

#[test]
fn cuenta_de_un_lote() {
    let mut l = Lote::nuevo();
    assert!(!l.cerrar("a", Desenlace::Sistemico, &vec![]));
    assert!(!l.cerrar("b", Desenlace::Sistemico, &vec![]));
    assert!(!l.cerrar("c", Desenlace::Bajado, &vec![]));
    assert_eq!(l.sys_fail, 0);
    assert!(!l.cerrar("d", Desenlace::Recuperado, &vec![]));
    assert!(!l.cerrar("e", Desenlace::Fallido, &vec![]));
    assert_eq!(l.ok, vec!["c", "d"]);
    assert_eq!(l.fail[0].1, "servidor intranet sin respuesta (timeout)");
    assert_eq!(l.fail[2].1, "3 intentos + granular 2/4/6/10/dia fallo");
    assert_eq!(l.hechos(), 5);
    assert!(!l.cerrar("f", Desenlace::Sistemico, &vec![]));
    assert!(!l.cerrar("g", Desenlace::Sistemico, &vec![]));
    assert!(l.cerrar("h", Desenlace::Sistemico, &vec![]));
}

#[test]
fn esperas() {
    assert!(!toca_entrar(0));
    assert!(toca_entrar(6));
    assert!(!toca_entrar(7));
    assert_eq!(espera_item(0, 2, 60, Desenlace::Bajado), Some(3));
    assert_eq!(espera_item(0, 2, 80, Desenlace::Fallido), Some(13));
    assert_eq!(espera_item(0, 2, 100_000, Desenlace::Recuperado), Some(33));
    assert_eq!(espera_item(1, 2, 80, Desenlace::Bajado), None);
    assert_eq!(espera_item(0, 2, 80, Desenlace::Sistemico), None);
    assert_eq!(tras_intento(1, true, true), (0, false));
    assert_eq!(tras_intento(1, true, false), (3, true));
    assert_eq!(tras_intento(3, true, false), (3, false));
    assert_eq!(tras_intento(2, false, false), (5, true));
}

#[test]
fn captura_entera() {
    let c = seguir_corrida(true, Corrida::Requisitos, Suceso::Bien);
    assert_eq!(c, Corrida::Bloqueo);
    assert_eq!(seguir_corrida(false, c, Suceso::Bien), Corrida::Rango);
    let c = seguir_corrida(true, c, Suceso::Bien);
    assert_eq!(c, Corrida::Pendientes);
    let c = seguir_corrida(true, c, Suceso::Cuantos(2));
    assert_eq!(c, Corrida::EntrarHttp { total: 2 });
    let n = seguir_corrida(true, c, Suceso::Mal);
    assert_eq!(n, Corrida::EntrarNavegador { total: 2 });
    assert_eq!(seguir_corrida(true, n, Suceso::Mal), Corrida::Fin { como: Final::SinAcceso });
    assert_eq!(seguir_corrida(true, c, Suceso::SinCliente), Corrida::Fin { como: Final::SinCliente });
    let c = seguir_corrida(true, c, Suceso::Bien);
    assert_eq!(c, Corrida::Elemento { idx: 0, total: 2 });
    assert_eq!(seguir_corrida(true, c, Suceso::Parar), Corrida::Fin { como: Final::Abortada });
    assert_eq!(seguir_corrida(true, c, Suceso::Caido), Corrida::Fin { como: Final::ServidorCaido });
    let c = seguir_corrida(true, c, Suceso::Bien);
    let c = seguir_corrida(true, c, Suceso::Mal);
    assert_eq!(c, Corrida::Repetidos);
    let c = seguir_corrida(true, c, Suceso::Bien);
    assert_eq!(c, Corrida::Fin { como: Final::Completa });
    assert_eq!(seguir_corrida(true, c, Suceso::Averia), c);
}

#[test]
fn finales() {
    let mal = |c: Corrida| seguir_corrida(false, c, Suceso::Mal);
    assert_eq!(mal(Corrida::Requisitos), Corrida::Fin { como: Final::FaltaRequisito });
    assert_eq!(mal(Corrida::Bloqueo), Corrida::Fin { como: Final::Ocupada });
    assert_eq!(mal(Corrida::Rango), Corrida::Fin { como: Final::RangoInvalido });
    assert_eq!(
        seguir_corrida(false, Corrida::Pendientes, Suceso::Cuantos(0)),
        Corrida::Fin { como: Final::SinPendientes }
    );
    assert_eq!(
        seguir_corrida(false, Corrida::Repetidos, Suceso::Averia),
        Corrida::Fin { como: Final::Error }
    );
    assert_eq!(fase_de_final(Final::Completa), Some(CapturePhase::Done));
    assert_eq!(fase_de_final(Final::SinPendientes), Some(CapturePhase::Done));
    assert_eq!(fase_de_final(Final::RangoInvalido), Some(CapturePhase::Idle));
    assert_eq!(fase_de_final(Final::Abortada), Some(CapturePhase::Error));
    assert_eq!(fase_de_final(Final::Error), None);
}

#[test]
fn mensajes_de_una_captura() {
    assert_eq!(mensaje_inicio(3), "Captura iniciada \u{2014} 3 item(s) estimado(s)");
    assert_eq!(mensaje_descargando("2024-01"), "Descargando 2024-01...");
    assert_eq!(mensaje_elemento(1, 12, "Descargando", "2024-01"), "[1/12] Descargando 2024-01");
    assert_eq!(mensaje_intento(2, "x"), "Intento 2/3 \u{2014} x");
    assert_eq!(elemento_intento("x", 2), "x (intento 2)");
    assert_eq!(mensaje_conversion("x", "y"), "Error convirtiendo x: y");
    assert_eq!(mensaje_parseando("x"), "Parseando x");
    assert_eq!(mensaje_insertadas(10), "Insertadas 10 filas");
    assert_eq!(mensaje_filas(1, 2, 10), "[1/2] 10 filas insertadas");
    assert_eq!(mensaje_sin_respuesta("x", 2), "x: servidor sin respuesta (2/3)");
    assert_eq!(mensaje_no_responde("x", 6), "x: servidor no responde tras 6 d\u{ed}as seguidos");
    assert_eq!(mensaje_completado("01:05"), "Completado en 01:05");
    assert_eq!(mensaje_login_fallido("a", "b"), "Login fallido (HTTP y Chrome): a / b");
    assert_eq!(mensaje_sin_cliente("a"), "No se pudo crear cliente HTTP: a");
    assert_eq!(
        mensaje_quedan(1, 4, "Parseando x \u{2014} quedan ~9m0s", 125),
        "[1/4] Parseando x \u{2014} quedan ~2m5s"
    );
}

#[test]
fn mensaje_de_cierre() {
    assert_eq!(mensaje_recuento(2, 1, 3), "Listo \u{2014} 2/3 ok, 1/3 fail");
    assert_eq!(mensaje_recuento(0, 0, 0), "Listo \u{2014} 0/0 ok, 0/0 fail");
    assert_eq!(mensaje_final(3, &vec![], 3), "Listo \u{2014} 3/3 ok, 0/3 fail");
    let f = |a: &str, b: &str| (a.to_string(), b.to_string());
    assert_eq!(
        mensaje_final(2, &vec![f("a", "x")], 3),
        "Listo \u{2014} 2/3 ok, 1/3 fail \u{2014} a: x"
    );
    assert_eq!(
        mensaje_final(0, &vec![f("a", "x"), f("b", "y"), f("c", "z")], 3),
        "Listo \u{2014} 0/3 ok, 3/3 fail \u{2014} a: x; b: y ..."
    );
}

fn nada() -> Obtenido {
    Obtenido { error: None, hecho: false, csv: None, xls: None, leidas: None, guardadas: false }
}

#[test]
fn sucesos_de_una_descarga() {
    let directo = Item::Directo { intento: 1 };
    let caducada = Obtenido { error: Some("deadline has elapsed".to_string()), ..nada() };
    assert_eq!(evento_de(directo, &caducada, &vec![]), Evento::Error { caducado: true });
    assert_eq!(evento_de(directo, &nada(), &vec![]), Evento::Malo);
    let bajada = Obtenido { hecho: true, ..nada() };
    assert_eq!(evento_de(directo, &bajada, &vec![]), Evento::Bueno);
    let sonda = Item::Sonda { intento: 1 };
    assert_eq!(evento_de(sonda, &nada(), &vec![]), Evento::Bueno);
    assert_eq!(evento_de(sonda, &caducada, &vec![]), Evento::Malo);
    let trozo = Item::Trozo { lista: 0, trozo: 0, intento: 1 };
    let corto = Obtenido { hecho: true, csv: Some(500), ..nada() };
    let largo = Obtenido { hecho: true, csv: Some(501), ..nada() };
    assert_eq!(evento_de(trozo, &corto, &vec![]), Evento::Malo);
    assert_eq!(evento_de(trozo, &largo, &vec![]), Evento::Bueno);
    let rechazada = Obtenido { error: Some("status=500".to_string()), ..nada() };
    assert_eq!(evento_de(trozo, &rechazada, &vec![]), Evento::Error { caducado: false });
    assert!(hay_que_convertir(true, false));
    assert!(!hay_que_convertir(true, true));
    assert!(!hay_que_convertir(false, false));
}

#[test]
fn sucesos_de_una_union() {
    assert_eq!(evento_de(Item::Dailies, &nada(), &vec![Some(1001)]), Evento::Bueno);
    assert_eq!(evento_de(Item::Dailies, &nada(), &vec![Some(1001), None]), Evento::Malo);
    let unida = Obtenido { hecho: true, csv: Some(1001), leidas: Some(0), guardadas: true, ..nada() };
    assert_eq!(evento_de(Item::UnionDailies, &unida, &vec![]), Evento::Bueno);
    let trozos = Item::UnionTrozos { lista: 0 };
    assert_eq!(evento_de(trozos, &unida, &vec![]), Evento::Malo);
    let con_filas = Obtenido { leidas: Some(1), hecho: false, csv: Some(1001), guardadas: true, ..nada() };
    assert_eq!(evento_de(trozos, &con_filas, &vec![]), Evento::Bueno);
    assert_eq!(evento_de(Item::UnionDailies, &con_filas, &vec![]), Evento::Malo);
    assert_eq!(evento_de(Item::Pagina, &con_filas, &vec![]), Evento::Bueno);
    assert_eq!(evento_de(Item::Pagina, &unida, &vec![]), Evento::Malo);
    assert!(hay_que_leer(Item::UnionDailies, &unida));
    assert!(!hay_que_leer(Item::UnionDailies, &con_filas));
    assert!(hay_que_leer(trozos, &con_filas));
    assert!(!hay_que_leer(Item::Dailies, &unida));
    assert!(!hay_que_leer(Item::UnionDias, &nada()));
    assert_eq!(evento_de(Item::UnionDias, &nada(), &vec![]), Evento::Malo);
    assert_eq!(evento_de(Item::UnionDias, &Obtenido { csv: Some(1), ..nada() }, &vec![]), Evento::Bueno);
}

#[test]
fn sucesos_de_un_dia() {
    let dia = |paso: PasoDia| Item::Dia { d: 0, ok: 0, seguidos: 0, paso };
    let o = Obtenido { csv: Some(1000), xls: Some(1001), hecho: true, ..nada() };
    assert_eq!(
        evento_de(dia(PasoDia::Mirar), &o, &vec![]),
        Evento::Archivos { csv: false, xls: true }
    );
    assert_eq!(evento_de(dia(PasoDia::Xls), &o, &vec![]), Evento::Bueno);
    assert_eq!(evento_de(dia(PasoDia::Bajar { intento: 1 }), &o, &vec![]), Evento::Bueno);
    assert_eq!(evento_de(dia(PasoDia::Partir), &o, &vec![]), Evento::Malo);
    let e = Obtenido { error: Some("x".to_string()), csv: Some(2000), hecho: true, ..nada() };
    assert_eq!(evento_de(dia(PasoDia::Bajar { intento: 2 }), &e, &vec![]), Evento::Malo);
    assert_eq!(evento_de(dia(PasoDia::Partir), &e, &vec![]), Evento::Malo);
}

#[test]
fn avisos_de_dias_que_faltan() {
    assert_eq!(aviso_tras(Item::Directo { intento: 1 }, Evento::Bueno, 3), Aviso::Borrar);
    assert_eq!(aviso_tras(Item::Directo { intento: 1 }, Evento::Malo, 3), Aviso::Nada);
    assert_eq!(aviso_tras(Item::UnionDias, Evento::Bueno, 2), Aviso::Escribir);
    assert_eq!(aviso_tras(Item::UnionDias, Evento::Bueno, 0), Aviso::Borrar);
    assert_eq!(aviso_tras(Item::Pagina, Evento::Malo, 2), Aviso::Escribir);
    assert_eq!(aviso_tras(Item::Pagina, Evento::Malo, 0), Aviso::Nada);
    assert_eq!(aviso_tras(Item::UnionTrozos { lista: 0 }, Evento::Bueno, 2), Aviso::Borrar);
    assert_eq!(aviso_tras(Item::UnionTrozos { lista: 0 }, Evento::Malo, 2), Aviso::Nada);
}
