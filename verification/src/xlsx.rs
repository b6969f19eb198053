//! Lectura directa de las partes XML de un libro `.xlsx` (cadenas
//! compartidas, libro, relaciones y hoja), para cuando la planilla no se
//! puede leer de otra forma. El XML se tokeniza con `quick_xml`; la
//! interpretación de los eventos es de este módulo.
use vstd::prelude::*;
use crate::excel::{indice_acotado, indice_columna};
use crate::numeros::{lectura_usize, leer_usize};
use crate::texto::{copiar, iguales};
use vstd::utf8::encode_utf8;
use std::collections::HashMap;
use quick_xml::events::Event::{End, Eof, Start, Text};
use EventoXml::{Error, Fin, FinDocumento, Inicio, Otro, Texto};

verus! {

broadcast use vstd::std_specs::hash::group_hash_axioms;

#[verifier::external_type_specification]
#[verifier::external_body]
#[verifier::reject_recursive_types(R)]
pub struct ExLectorXml<R>(quick_xml::Reader<R>);

/// Un evento del tokenizador de XML, con los textos ya decodificados.
#[derive(Debug, Clone)]
pub enum EventoXml {
    /// Etiqueta de apertura: nombre y atributos (clave y valor; `None`
    /// para un atributo mal formado).
    Inicio { nombre: String, atributos: Vec<Option<(String, String)>> },
    /// Etiqueta de cierre.
    Fin { nombre: String },
    /// Texto entre etiquetas.
    Texto(String),
    /// Cualquier otro evento (comentarios, declaraciones, etiquetas vacías...).
    Otro,
    /// Fin del documento.
    FinDocumento,
    /// Error del tokenizador, con su descripción.
    Error(String),
}

/// Vista de un `EventoXml`.
pub enum EventoVista {
    Inicio { nombre: Seq<char>, atributos: Seq<Option<(Seq<char>, Seq<char>)>> },
    Fin { nombre: Seq<char> },
    Texto(Seq<char>),
    Otro,
    FinDocumento,
    Error(Seq<char>),
}

/// Vista de los atributos de una etiqueta.
pub open spec fn vista_atributos(a: Seq<Option<(String, String)>>) -> Seq<
    Option<(Seq<char>, Seq<char>)>,
> {
    a.map_values(
        |x: Option<(String, String)>|
            match x {
                Some(p) => Some((p.0@, p.1@)),
                None => None,
            },
    )
}

/// Vista de un evento.
pub open spec fn vista_evento(e: EventoXml) -> EventoVista {
    match e {
        EventoXml::Inicio { nombre, atributos } => EventoVista::Inicio {
            nombre: nombre@,
            atributos: vista_atributos(atributos@),
        },
        EventoXml::Fin { nombre } => EventoVista::Fin { nombre: nombre@ },
        EventoXml::Texto(t) => EventoVista::Texto(t@),
        EventoXml::Otro => EventoVista::Otro,
        EventoXml::FinDocumento => EventoVista::FinDocumento,
        EventoXml::Error(m) => EventoVista::Error(m@),
    }
}

/// Vista de una lista de eventos.
pub open spec fn vista_eventos(v: Seq<EventoXml>) -> Seq<EventoVista> {
    v.map_values(|e: EventoXml| vista_evento(e))
}

/// El evento termina la lectura: fin del documento o error (después
/// de él, el lector de `quick_xml` sólo da fines de documento).
pub open spec fn final_vista(e: EventoVista) -> bool {
    e is FinDocumento || e is Error
}

/// La secuencia termina en su único evento final.
pub open spec fn cortada(s: Seq<EventoVista>) -> bool {
    &&& s.len() >= 1
    &&& final_vista(s.last())
    &&& forall|i: int| 0 <= i < s.len() - 1 ==> !final_vista(#[trigger] s[i])
}

/// Los eventos que da un `quick_xml::Reader` creado con `from_str` sobre
/// `texto`, con `trim_text(recorta)`, en orden, hasta el primer fin de
/// documento o error inclusive, convertidos como lo hace `leer_evento` (el
/// tokenizador de XML de `quick_xml`, que no se escribe aquí).
pub uninterp spec fn tokens_xml(texto: Seq<char>, recorta: bool) -> Seq<EventoVista>;

/// El texto sobre el que se creó el lector.
pub uninterp spec fn texto_lector(l: quick_xml::Reader<&[u8]>) -> Seq<char>;

/// Los eventos que el lector aún va a dar, hasta el primer fin de
/// documento o error inclusive.
pub uninterp spec fn pendientes(l: quick_xml::Reader<&[u8]>) -> Seq<EventoVista>;

/// Llama a `quick_xml::Reader::from_str`: un lector al comienzo de
/// `texto`, sin recortar textos, que dará los eventos de
/// `tokens_xml(texto, false)`. Que éstos terminen en un fin de documento o
/// un error se debe a que el lector avanza sobre un texto finito.
#[verifier::external_body]
fn lector_xml(texto: &str) -> (r: quick_xml::Reader<&[u8]>)
    ensures
        texto_lector(r) == texto@,
        pendientes(r) == tokens_xml(texto@, false),
        cortada(pendientes(r)),
{
    quick_xml::Reader::from_str(texto)
}

/// Llama a `quick_xml::Reader::trim_text(true)` sobre un lector del que aún
/// no se ha leído nada: desde ahí dará los eventos de
/// `tokens_xml(texto, true)`.
#[verifier::external_body]
fn omitir_espacios(lector: &mut quick_xml::Reader<&[u8]>)
    requires
        pendientes(*old(lector)) == tokens_xml(texto_lector(*old(lector)), false),
    ensures
        texto_lector(*final(lector)) == texto_lector(*old(lector)),
        pendientes(*final(lector)) == tokens_xml(texto_lector(*old(lector)), true),
        cortada(pendientes(*final(lector))),
{
    lector.trim_text(true);
}

/// Llama a `quick_xml::Reader::read_event_into` y convierte el evento:
/// nombres con `String::from_utf8_lossy`, valores de atributos y textos
/// con `unescape` (vacíos si no se pueden decodificar), el error con su
/// `Display`, y los demás eventos (etiquetas vacías, comentarios,
/// declaraciones...) como `Otro`. Da el primero de los eventos pendientes
/// del lector y lo deja con los demás; leído el evento final, nada se dice
/// de una lectura más.
#[verifier::external_body]
fn leer_evento(lector: &mut quick_xml::Reader<&[u8]>) -> (r: EventoXml)
    ensures
        pendientes(*old(lector)).len() > 0 ==> vista_evento(r) == pendientes(*old(lector))[0],
        pendientes(*old(lector)).len() > 0 ==> pendientes(*final(lector)) == pendientes(
            *old(lector),
        ).drop_first(),
        texto_lector(*final(lector)) == texto_lector(*old(lector)),
{
    match lector.read_event_into(&mut Vec::new()) {
        Ok(Start(e)) => Inicio {
            nombre: String::from_utf8_lossy(e.name().0).into(),
            atributos: e.attributes().with_checks(false).map(|a| a.ok().map(|a| (
                String::from_utf8_lossy(a.key.0).into(),
                a.unescape_value().unwrap_or_default().into(),
            ))).collect(),
        },
        Ok(End(e)) => Fin { nombre: String::from_utf8_lossy(e.name().0).into() },
        Ok(Text(e)) => Texto(e.unescape().unwrap_or_default().into()),
        Ok(Eof) => FinDocumento,
        Ok(_) => Otro,
        Err(e) => Error(e.to_string()),
    }
}

/// Tokeniza `texto` hasta el fin del documento o el primer error, con los
/// textos recortados y sin los textos en blanco.
pub fn eventos_xml(texto: &str) -> (r: Vec<EventoXml>)
    ensures
        vista_eventos(r@) == tokens_xml(texto@, true),
        cortada(vista_eventos(r@)),
{
    let mut lector = lector_xml(texto);
    omitir_espacios(&mut lector);
    let ghost todos = tokens_xml(texto@, true);
    let mut r: Vec<EventoXml> = Vec::new();
    assert(vista_eventos(r@) + pendientes(lector) =~= todos);
    loop
        invariant
            cortada(todos),
            todos == tokens_xml(texto@, true),
            todos == vista_eventos(r@) + pendientes(lector),
            pendientes(lector).len() >= 1,
        decreases pendientes(lector).len(),
    {
        let ghost antes = vista_eventos(r@);
        let ghost resto = pendientes(lector);
        let e = leer_evento(&mut lector);
        let fin = match &e {
            EventoXml::FinDocumento => true,
            EventoXml::Error(_) => true,
            _ => false,
        };
        r.push(e);
        assert(vista_eventos(r@) =~= antes.push(resto[0]));
        assert(todos[antes.len() as int] == resto[0]);
        if fin {
            assert(antes.len() == todos.len() - 1);
            assert(resto.len() == 1);
            assert(vista_eventos(r@) =~= todos);
            return r;
        }
        assert(antes.len() < todos.len() - 1);
        assert(vista_eventos(r@) + pendientes(lector) =~= todos);
    }
}

/// El evento es la apertura de una etiqueta con ese nombre.
pub open spec fn abre(e: EventoVista, nombre: Seq<char>) -> bool {
    e matches EventoVista::Inicio { nombre: n, .. } && n == nombre
}

/// El evento es el cierre de una etiqueta con ese nombre.
pub open spec fn cierra(e: EventoVista, nombre: Seq<char>) -> bool {
    e matches EventoVista::Fin { nombre: n } && n == nombre
}

/// Las cadenas compartidas desde la posición `i`: el texto que sigue a
/// cada `<t>`, en orden, hasta el fin del documento.
pub open spec fn cadenas_desde(ev: Seq<EventoVista>, i: int, acc: Seq<Seq<char>>) -> Result<
    Seq<Seq<char>>,
    Seq<char>,
>
    decreases ev.len() - i,
{
    if i < 0 || i >= ev.len() {
        Ok(acc)
    } else {
        match ev[i] {
            EventoVista::FinDocumento => Ok(acc),
            EventoVista::Error(m) => Err("XML parse error in sharedStrings: "@ + m),
            _ => if abre(ev[i], "t"@) {
                if i + 1 >= ev.len() {
                    Ok(acc)
                } else {
                    match ev[i + 1] {
                        EventoVista::Texto(t) => cadenas_desde(ev, i + 2, acc.push(t)),
                        _ => cadenas_desde(ev, i + 2, acc),
                    }
                }
            } else {
                cadenas_desde(ev, i + 1, acc)
            },
        }
    }
}

fn es_apertura(e: &EventoXml, nombre: &str) -> (r: bool)
    ensures
        r == abre(vista_evento(*e), nombre@),
{
    match e {
        EventoXml::Inicio { nombre: n, .. } => iguales(n.as_str(), nombre),
        _ => false,
    }
}

fn es_cierre(e: &EventoXml, nombre: &str) -> (r: bool)
    ensures
        r == cierra(vista_evento(*e), nombre@),
{
    match e {
        EventoXml::Fin { nombre: n } => iguales(n.as_str(), nombre),
        _ => false,
    }
}

fn con_prefijo(prefijo: &str, m: &String) -> (r: String)
    ensures
        r@ == prefijo@ + m@,
{
    let mut r = copiar(prefijo);
    r.append(m.as_str());
    r
}

/// `r` es lo que dan `cadenas_desde` sobre los eventos `ev`.
pub open spec fn cadenas_segun(r: Result<Vec<String>, String>, ev: Seq<EventoVista>) -> bool {
    match r {
        Ok(v) => cadenas_desde(ev, 0, Seq::empty()) == Ok::<Seq<Seq<char>>, Seq<char>>(
            v.deep_view(),
        ),
        Err(m) => cadenas_desde(ev, 0, Seq::empty()) == Err::<Seq<Seq<char>>, Seq<char>>(m@),
    }
}

/// Las cadenas compartidas de un libro a partir de los eventos de
/// `xl/sharedStrings.xml`.
pub fn cadenas_de_eventos(ev: &Vec<EventoXml>) -> (r: Result<Vec<String>, String>)
    ensures
        cadenas_segun(r, vista_eventos(ev@)),
{
    let ghost v = vista_eventos(ev@);
    let mut acc: Vec<String> = Vec::new();
    let mut i: usize = 0;
    assert(acc.deep_view() =~= Seq::<Seq<char>>::empty());
    while i < ev.len()
        invariant
            v == vista_eventos(ev@),
            cadenas_desde(v, i as int, acc.deep_view()) == cadenas_desde(v, 0, Seq::empty()),
        decreases ev.len() - i,
    {
        match &ev[i] {
            EventoXml::FinDocumento => {
                return Ok(acc);
            },
            EventoXml::Error(m) => {
                return Err(con_prefijo("XML parse error in sharedStrings: ", m));
            },
            _ => {},
        }
        if es_apertura(&ev[i], "t") {
            if i + 1 < ev.len() {
                match &ev[i + 1] {
                    EventoXml::Texto(t) => {
                        let ghost antes = acc.deep_view();
                        acc.push(t.clone());
                        assert(acc.deep_view() =~= antes.push(t@));
                    },
                    _ => {},
                }
            }
            if i + 1 >= ev.len() {
                return Ok(acc);
            }
            i = i + 2;
        } else {
            i = i + 1;
        }
    }
    Ok(acc)
}

/// El valor del último atributo bien formado con esa clave.
pub open spec fn ultimo_atributo(a: Seq<Option<(Seq<char>, Seq<char>)>>, clave: Seq<char>) -> Option<
    Seq<char>,
>
    decreases a.len(),
{
    if a.len() == 0 {
        None
    } else {
        match a.last() {
            Some(p) => if p.0 == clave {
                Some(p.1)
            } else {
                ultimo_atributo(a.drop_last(), clave)
            },
            None => ultimo_atributo(a.drop_last(), clave),
        }
    }
}

fn atributo(a: &Vec<Option<(String, String)>>, clave: &str) -> (r: Option<String>)
    ensures
        match r {
            Some(s) => ultimo_atributo(vista_atributos(a@), clave@) == Some(s@),
            None => ultimo_atributo(vista_atributos(a@), clave@) is None,
        },
{
    let ghost v = vista_atributos(a@);
    let mut j: usize = a.len();
    assert(v.take(a.len() as int) =~= v);
    while j > 0
        invariant
            j <= a.len(),
            v == vista_atributos(a@),
            ultimo_atributo(v, clave@) == ultimo_atributo(v.take(j as int), clave@),
        decreases j,
    {
        assert(v.take(j as int).drop_last() =~= v.take(j - 1));
        match &a[j - 1] {
            Some(p) => {
                if iguales(p.0.as_str(), clave) {
                    return Some(p.1.clone());
                }
            },
            None => {},
        }
        j = j - 1;
    }
    None
}

/// Los atributos de un evento de apertura (ninguno si es otro evento).
pub open spec fn atributos_de(e: EventoVista) -> Seq<Option<(Seq<char>, Seq<char>)>> {
    match e {
        EventoVista::Inicio { atributos, .. } => atributos,
        _ => Seq::empty(),
    }
}

/// La ruta de la hoja cuya relación tiene el identificador `rid`, según
/// los eventos de `xl/_rels/workbook.xml.rels` desde la posición `i`.
pub open spec fn relacion_desde(rels: Seq<EventoVista>, i: int, rid: Seq<char>) -> Result<
    Option<Seq<char>>,
    Seq<char>,
>
    decreases rels.len() - i,
{
    if i < 0 || i >= rels.len() {
        Ok(None)
    } else {
        match rels[i] {
            EventoVista::FinDocumento => Ok(None),
            EventoVista::Error(m) => Err("XML parse error in workbook rels: "@ + m),
            _ => {
                let a = atributos_de(rels[i]);
                if abre(rels[i], "Relationship"@) && ultimo_atributo(a, "Id"@) == Some(rid)
                    && ultimo_atributo(a, "Target"@) is Some {
                    Ok(Some("xl/"@ + ultimo_atributo(a, "Target"@)->0))
                } else {
                    relacion_desde(rels, i + 1, rid)
                }
            },
        }
    }
}

/// Recorre los eventos de `xl/workbook.xml` desde la posición `i`: cada
/// hoja llamada `hoja` con relación conocida fija la ruta (la última
/// manda).
pub open spec fn libro_desde(
    libro: Seq<EventoVista>,
    i: int,
    rels: Option<Seq<EventoVista>>,
    hoja: Seq<char>,
    actual: Option<Seq<char>>,
) -> Result<Option<Seq<char>>, Seq<char>>
    decreases libro.len() - i,
{
    if i < 0 || i >= libro.len() {
        Ok(actual)
    } else {
        match libro[i] {
            EventoVista::FinDocumento => Ok(actual),
            EventoVista::Error(m) => Err("XML parse error in workbook: "@ + m),
            _ => {
                let a = atributos_de(libro[i]);
                if abre(libro[i], "sheet"@) && ultimo_atributo(a, "name"@) == Some(hoja)
                    && ultimo_atributo(a, "r:id"@) is Some && rels is Some {
                    match relacion_desde(rels->0, 0, ultimo_atributo(a, "r:id"@)->0) {
                        Err(m) => Err(m),
                        Ok(Some(p)) => libro_desde(libro, i + 1, rels, hoja, Some(p)),
                        Ok(None) => libro_desde(libro, i + 1, rels, hoja, actual),
                    }
                } else {
                    libro_desde(libro, i + 1, rels, hoja, actual)
                }
            },
        }
    }
}

/// La ruta de la hoja `hoja` dentro del libro: la que dan el libro y sus
/// relaciones, o `xl/worksheets/sheet1.xml` si no se encuentra.
pub open spec fn ruta_de_hoja(
    libro: Option<Seq<EventoVista>>,
    rels: Option<Seq<EventoVista>>,
    hoja: Seq<char>,
) -> Result<Seq<char>, Seq<char>> {
    match libro {
        None => Ok("xl/worksheets/sheet1.xml"@),
        Some(l) => match libro_desde(l, 0, rels, hoja, None) {
            Err(m) => Err(m),
            Ok(Some(p)) => Ok(p),
            Ok(None) => Ok("xl/worksheets/sheet1.xml"@),
        },
    }
}

fn relacion(rels: &Vec<EventoXml>, rid: &String) -> (r: Result<Option<String>, String>)
    ensures
        match r {
            Ok(Some(p)) => relacion_desde(vista_eventos(rels@), 0, rid@) == Ok::<
                Option<Seq<char>>,
                Seq<char>,
            >(Some(p@)),
            Ok(None) => relacion_desde(vista_eventos(rels@), 0, rid@) == Ok::<
                Option<Seq<char>>,
                Seq<char>,
            >(None),
            Err(m) => relacion_desde(vista_eventos(rels@), 0, rid@) == Err::<
                Option<Seq<char>>,
                Seq<char>,
            >(m@),
        },
{
    let ghost v = vista_eventos(rels@);
    let mut i: usize = 0;
    while i < rels.len()
        invariant
            i <= rels.len(),
            v == vista_eventos(rels@),
            relacion_desde(v, i as int, rid@) == relacion_desde(v, 0, rid@),
        decreases rels.len() - i,
    {
        match &rels[i] {
            EventoXml::FinDocumento => {
                return Ok(None);
            },
            EventoXml::Error(m) => {
                return Err(con_prefijo("XML parse error in workbook rels: ", m));
            },
            EventoXml::Inicio { nombre, atributos } => {
                if iguales(nombre.as_str(), "Relationship") {
                    let id = atributo(atributos, "Id");
                    let target = atributo(atributos, "Target");
                    match (id, target) {
                        (Some(id), Some(t)) => {
                            if iguales(id.as_str(), rid.as_str()) {
                                return Ok(Some(con_prefijo("xl/", &t)));
                            }
                        },
                        _ => {},
                    }
                }
            },
            _ => {},
        }
        i = i + 1;
    }
    Ok(None)
}

/// `r` es lo que da `ruta_de_hoja`.
pub open spec fn ruta_segun(
    r: Result<String, String>,
    libro: Option<Seq<EventoVista>>,
    rels: Option<Seq<EventoVista>>,
    hoja: Seq<char>,
) -> bool {
    match r {
        Ok(p) => ruta_de_hoja(libro, rels, hoja) == Ok::<Seq<char>, Seq<char>>(p@),
        Err(m) => ruta_de_hoja(libro, rels, hoja) == Err::<Seq<char>, Seq<char>>(m@),
    }
}

/// La ruta de la hoja `hoja` según los eventos del libro y de sus
/// relaciones (cualquiera de los dos puede faltar).
pub fn ruta_hoja_de_eventos(
    libro: Option<&Vec<EventoXml>>,
    rels: Option<&Vec<EventoXml>>,
    hoja: &str,
) -> (r: Result<String, String>)
    ensures
        ruta_segun(
            r,
            match libro {
                Some(l) => Some(vista_eventos(l@)),
                None => None,
            },
            match rels {
                Some(x) => Some(vista_eventos(x@)),
                None => None,
            },
            hoja@,
        ),
{
    let ghost rv: Option<Seq<EventoVista>> = match rels {
        Some(x) => Some(vista_eventos(x@)),
        None => None,
    };
    let l = match libro {
        None => {
            return Ok(copiar("xl/worksheets/sheet1.xml"));
        },
        Some(l) => l,
    };
    let ghost v = vista_eventos(l@);
    let mut actual: Option<String> = None;
    let mut i: usize = 0;
    while i < l.len()
        invariant
            i <= l.len(),
            libro == Some(l),
            v == vista_eventos(l@),
            rv == match rels {
                Some(x) => Some(vista_eventos(x@)),
                None => None::<Seq<EventoVista>>,
            },
            libro_desde(v, i as int, rv, hoja@, match actual {
                Some(p) => Some(p@),
                None => None,
            }) == libro_desde(v, 0, rv, hoja@, None),
        decreases l.len() - i,
    {
        match &l[i] {
            EventoXml::FinDocumento => {
                return match actual {
                    Some(p) => Ok(p),
                    None => Ok(copiar("xl/worksheets/sheet1.xml")),
                };
            },
            EventoXml::Error(m) => {
                return Err(con_prefijo("XML parse error in workbook: ", m));
            },
            EventoXml::Inicio { nombre, atributos } => {
                if iguales(nombre.as_str(), "sheet") {
                    let n = atributo(atributos, "name");
                    let rid = atributo(atributos, "r:id");
                    match (n, rid, rels) {
                        (Some(n), Some(rid), Some(x)) => {
                            if iguales(n.as_str(), hoja) {
                                match relacion(x, &rid) {
                                    Err(m) => {
                                        return Err(m);
                                    },
                                    Ok(Some(p)) => {
                                        actual = Some(p);
                                    },
                                    Ok(None) => {},
                                }
                            }
                        },
                        _ => {},
                    }
                }
            },
            _ => {},
        }
        i = i + 1;
    }
    match actual {
        Some(p) => Ok(p),
        None => Ok(copiar("xl/worksheets/sheet1.xml")),
    }
}

/// La letra tiene la propiedad Unicode `Alphabetic`, tal como la decide
/// `char::is_alphabetic` (la tabla de Unicode no se escribe aquí).
pub uninterp spec fn es_alfabetico(c: char) -> bool;

/// Llama a `char::is_alphabetic`. El contrato sólo dice que el resultado
/// es `es_alfabetico(c)`: depende de `c` y de nada más.
#[verifier::external_body]
fn alfabetico(c: char) -> (r: bool)
    ensures
        r == es_alfabetico(c),
{
    c.is_alphabetic()
}

/// Las letras con que empieza `s` (lo que junta `take_while` con
/// `char::is_alphabetic`).
pub open spec fn letras_iniciales(s: Seq<char>) -> Seq<char> {
    s.take(largo_alfabetico(s, 0))
}

/// Cuántos caracteres alfabéticos seguidos hay en `s` desde `i`, más `i`.
pub open spec fn largo_alfabetico(s: Seq<char>, i: int) -> int
    decreases s.len() - i,
{
    if i < 0 || i >= s.len() || !es_alfabetico(s[i]) {
        i
    } else {
        largo_alfabetico(s, i + 1)
    }
}

fn letras_de(s: &str) -> (r: String)
    ensures
        r@ == letras_iniciales(s@),
{
    let n = s.unicode_len();
    let mut i: usize = 0;
    while i < n && alfabetico(s.get_char(i))
        invariant
            i <= n,
            n == s@.len(),
            largo_alfabetico(s@, 0) == largo_alfabetico(s@, i as int),
        decreases n - i,
    {
        i = i + 1;
    }
    s.substring_char(0, i).to_owned()
}

/// El valor de la columna `k` en las celdas de la fila en curso, o el
/// texto vacío si no está.
pub open spec fn buscar_col(c: Map<usize, Seq<char>>, k: int) -> Seq<char> {
    if 0 <= k <= usize::MAX && c.contains_key(k as usize) {
        c[k as usize]
    } else {
        Seq::empty()
    }
}

/// `m` es la mayor columna presente, o 0 si no hay celdas.
pub open spec fn es_max_col(c: Map<usize, Seq<char>>, m: usize) -> bool {
    &&& (m == 0 || c.contains_key(m))
    &&& forall|k: usize| #[trigger] c.contains_key(k) ==> k <= m
}

/// La mayor columna presente (0 si no hay celdas).
pub open spec fn max_col(c: Map<usize, Seq<char>>) -> usize {
    choose|m: usize| es_max_col(c, m)
}

/// Hay a lo sumo una mayor columna.
pub proof fn lema_max_col_unica(c: Map<usize, Seq<char>>, a: usize, b: usize)
    requires
        es_max_col(c, a),
        es_max_col(c, b),
    ensures
        a == b,
{
    if a != 0 {
        assert(c.contains_key(a));
    }
    if b != 0 {
        assert(c.contains_key(b));
    }
}

/// La fila que se arma al cerrar `<row>`: las columnas 1 a la mayor, con
/// texto vacío donde no hay celda.
pub open spec fn fila_de(c: Map<usize, Seq<char>>) -> Seq<Seq<char>> {
    Seq::new(max_col(c) as nat, |j: int| buscar_col(c, j + 1))
}

/// Las celdas que quedan al cerrar `<row>`: sólo la de la columna 0.
pub open spec fn solo_cero(c: Map<usize, Seq<char>>) -> Map<usize, Seq<char>> {
    c.restrict(set![0usize])
}

/// Una celda `<c>` abierta: su referencia (`r`), su tipo (`t`) y el
/// valor leído hasta ahora.
pub struct CeldaAbierta {
    pub referencia: Option<Seq<char>>,
    pub tipo: Option<Seq<char>>,
    pub valor: Seq<char>,
}

/// El valor de una celda: si es de tipo `s`, la cadena compartida cuyo
/// índice escribe (0 si no es un número; vacía si no existe); si no, el
/// valor tal cual.
pub open spec fn valor_final(a: CeldaAbierta, compartidas: Seq<Seq<char>>) -> Seq<char> {
    if a.tipo == Some("s"@) {
        let idx = match lectura_usize(encode_utf8(a.valor)) {
            Some(n) => n as int,
            None => 0,
        };
        if idx < compartidas.len() {
            compartidas[idx]
        } else {
            Seq::empty()
        }
    } else {
        a.valor
    }
}

/// Las celdas después de cerrar la celda `a`: sin referencia no cambian;
/// con referencia, su columna (por las letras iniciales) toma el valor;
/// error si la columna no cabe en un `usize`.
pub open spec fn celda_cerrada(
    celdas: Map<usize, Seq<char>>,
    a: CeldaAbierta,
    compartidas: Seq<Seq<char>>,
) -> Result<Map<usize, Seq<char>>, Seq<char>> {
    match a.referencia {
        None => Ok(celdas),
        Some(r) => {
            let col = indice_columna(letras_iniciales(r));
            if col > usize::MAX {
                Err("referencia de celda fuera de rango: "@ + r)
            } else {
                Ok(celdas.insert(col as usize, valor_final(a, compartidas)))
            }
        },
    }
}

/// Las filas de la hoja desde el evento `i`, con el estado de lectura:
/// si hay una fila abierta, las celdas de la fila en curso, la celda
/// abierta y las filas ya cerradas.
pub open spec fn hoja_desde(
    ev: Seq<EventoVista>,
    i: int,
    compartidas: Seq<Seq<char>>,
    en_fila: bool,
    celdas: Map<usize, Seq<char>>,
    abierta: Option<CeldaAbierta>,
    filas: Seq<Seq<Seq<char>>>,
) -> Result<Seq<Seq<Seq<char>>>, Seq<char>>
    decreases ev.len() - i,
{
    let terminal = i < 0 || i >= ev.len() || ev[i] is FinDocumento;
    match abierta {
        Some(a) => if terminal {
            match celda_cerrada(celdas, a, compartidas) {
                Err(m) => Err(m),
                Ok(_) => Ok(filas),
            }
        } else {
            match ev[i] {
                EventoVista::Error(m) => Err("XML parse error in sheet cells: "@ + m),
                _ => if abre(ev[i], "v"@) {
                    if i + 1 >= ev.len() {
                        hoja_desde(ev, i + 1, compartidas, en_fila, celdas, abierta, filas)
                    } else {
                        match ev[i + 1] {
                            EventoVista::Texto(t) => hoja_desde(
                                ev,
                                i + 2,
                                compartidas,
                                en_fila,
                                celdas,
                                Some(CeldaAbierta { valor: t, ..a }),
                                filas,
                            ),
                            _ => hoja_desde(ev, i + 2, compartidas, en_fila, celdas, abierta, filas),
                        }
                    }
                } else if cierra(ev[i], "c"@) {
                    match celda_cerrada(celdas, a, compartidas) {
                        Err(m) => Err(m),
                        Ok(c2) => hoja_desde(ev, i + 1, compartidas, en_fila, c2, None, filas),
                    }
                } else {
                    hoja_desde(ev, i + 1, compartidas, en_fila, celdas, abierta, filas)
                },
            }
        },
        None => if terminal {
            Ok(filas)
        } else {
            match ev[i] {
                EventoVista::Error(m) => Err("XML parse error in sheet: "@ + m),
                EventoVista::Inicio { nombre, atributos } => if nombre == "row"@ {
                    hoja_desde(ev, i + 1, compartidas, true, Map::empty(), None, filas)
                } else if nombre == "c"@ && en_fila {
                    hoja_desde(
                        ev,
                        i + 1,
                        compartidas,
                        en_fila,
                        celdas,
                        Some(
                            CeldaAbierta {
                                referencia: ultimo_atributo(atributos, "r"@),
                                tipo: ultimo_atributo(atributos, "t"@),
                                valor: Seq::empty(),
                            },
                        ),
                        filas,
                    )
                } else {
                    hoja_desde(ev, i + 1, compartidas, en_fila, celdas, None, filas)
                },
                EventoVista::Fin { nombre } => if nombre == "row"@ {
                    hoja_desde(
                        ev,
                        i + 1,
                        compartidas,
                        false,
                        solo_cero(celdas),
                        None,
                        filas.push(fila_de(celdas)),
                    )
                } else {
                    hoja_desde(ev, i + 1, compartidas, en_fila, celdas, None, filas)
                },
                _ => hoja_desde(ev, i + 1, compartidas, en_fila, celdas, None, filas),
            }
        },
    }
}

/// Vista de las celdas de la fila en curso.
pub open spec fn vista_cols(c: Map<usize, String>) -> Map<usize, Seq<char>> {
    c.map_values(|s: String| s@)
}

fn poner_col_exec(c: &mut HashMap<usize, String>, k: usize, v: String)
    ensures
        vista_cols(final(c)@) == vista_cols(old(c)@).insert(k, v@),
{
    let ghost antes = vista_cols(c@);
    let ghost vv = v@;
    c.insert(k, v);
    assert(vista_cols(c@) =~= antes.insert(k, vv));
}

fn max_col_exec(c: &HashMap<usize, String>) -> (r: usize)
    ensures
        r == max_col(vista_cols(c@)),
        es_max_col(vista_cols(c@), r),
{
    let mut r: usize = 0;
    for k in it: c.keys()
        invariant
            forall|j: int| 0 <= j < it.index() ==> *it.seq()[j] <= r,
            r == 0 || c@.contains_key(r),
    {
        if *k > r {
            r = *k;
        }
    }
    let ghost v = vista_cols(c@);
    assert(es_max_col(v, r));
    proof {
        lema_max_col_unica(v, r, max_col(v));
    }
    r
}

/// Arma la fila de las celdas en curso (columnas 1 a la mayor) sacándolas
/// del mapa, que queda sólo con la columna 0.
fn cerrar_fila(c: &mut HashMap<usize, String>) -> (r: Vec<String>)
    ensures
        r.deep_view() == fila_de(vista_cols(old(c)@)),
        vista_cols(final(c)@) == solo_cero(vista_cols(old(c)@)),
{
    let ghost c0 = c@;
    let m = max_col_exec(c);
    let mut r: Vec<String> = Vec::new();
    let mut k: usize = 0;
    while k < m
        invariant
            k <= m,
            m == max_col(vista_cols(c0)),
            es_max_col(vista_cols(c0), m),
            r.len() == k,
            forall|j: int| 0 <= j < k ==> #[trigger] r[j]@ == buscar_col(vista_cols(c0), j + 1),
            forall|j: usize| #[trigger] c@.contains_key(j) <==> (c0.contains_key(j) && !(1 <= j <= k)),
            forall|j: usize| c@.contains_key(j) ==> #[trigger] c@[j] == c0[j],
        decreases m - k,
    {
        k = k + 1;
        let v = match c.remove(&k) {
            Some(v) => v,
            None => String::new(),
        };
        r.push(v);
    }
    assert(r.deep_view() =~= fila_de(vista_cols(c0)));
    assert forall|j: usize| #[trigger] c@.contains_key(j) <==> (j == 0 && c0.contains_key(j)) by {
        if c0.contains_key(j) {
            assert(vista_cols(c0).contains_key(j));
        }
    }
    assert(vista_cols(c@) =~= solo_cero(vista_cols(c0)));
    r
}

fn valor_final_exec(
    tipo: &Option<String>,
    valor: &String,
    compartidas: &Vec<String>,
) -> (r: String)
    ensures
        r@ == valor_final(
            CeldaAbierta {
                referencia: None,
                tipo: match tipo {
                    Some(t) => Some(t@),
                    None => None,
                },
                valor: valor@,
            },
            compartidas.deep_view(),
        ),
{
    let es_s = match tipo {
        Some(t) => iguales(t.as_str(), "s"),
        None => false,
    };
    if es_s {
        let idx = match leer_usize(valor.as_str()) {
            Some(n) => n,
            None => 0,
        };
        if idx < compartidas.len() {
            assert(compartidas.deep_view()[idx as int] == compartidas[idx as int]@);
            compartidas[idx].clone()
        } else {
            String::new()
        }
    } else {
        valor.clone()
    }
}

fn cerrar_celda(
    celdas: &mut HashMap<usize, String>,
    referencia: &Option<String>,
    tipo: &Option<String>,
    valor: &String,
    compartidas: &Vec<String>,
) -> (r: Result<(), String>)
    ensures
        match celda_cerrada(
            vista_cols(old(celdas)@),
            CeldaAbierta {
                referencia: match referencia {
                    Some(x) => Some(x@),
                    None => None,
                },
                tipo: match tipo {
                    Some(t) => Some(t@),
                    None => None,
                },
                valor: valor@,
            },
            compartidas.deep_view(),
        ) {
            Ok(c2) => r is Ok && vista_cols(final(celdas)@) == c2,
            Err(m) => r matches Err(x) && x@ == m,
        },
{
    match referencia {
        None => Ok(()),
        Some(x) => {
            let letras = letras_de(x.as_str());
            match indice_acotado(letras.as_str()) {
                None => Err(con_prefijo("referencia de celda fuera de rango: ", x)),
                Some(col) => {
                    let v = valor_final_exec(tipo, valor, compartidas);
                    poner_col_exec(celdas, col, v);
                    Ok(())
                },
            }
        },
    }
}

/// Vista de la celda abierta (referencia, tipo, valor).
pub open spec fn vista_abierta(a: Option<(Option<String>, Option<String>, String)>) -> Option<
    CeldaAbierta,
> {
    match a {
        Some(x) => Some(
            CeldaAbierta {
                referencia: match x.0 {
                    Some(r) => Some(r@),
                    None => None,
                },
                tipo: match x.1 {
                    Some(t) => Some(t@),
                    None => None,
                },
                valor: x.2@,
            },
        ),
        None => None,
    }
}

/// `r` es lo que da `hoja_desde` al empezar la hoja.
pub open spec fn filas_segun(
    r: Result<Vec<Vec<String>>, String>,
    ev: Seq<EventoVista>,
    compartidas: Seq<Seq<char>>,
) -> bool {
    let esperado = hoja_desde(ev, 0, compartidas, false, Map::empty(), None, Seq::empty());
    match r {
        Ok(f) => esperado == Ok::<Seq<Seq<Seq<char>>>, Seq<char>>(f.deep_view()),
        Err(m) => esperado == Err::<Seq<Seq<Seq<char>>>, Seq<char>>(m@),
    }
}

/// Las filas de una hoja a partir de sus eventos XML y de las cadenas
/// compartidas del libro.
pub fn filas_de_eventos(ev: &Vec<EventoXml>, compartidas: &Vec<String>) -> (r: Result<
    Vec<Vec<String>>,
    String,
>)
    ensures
        filas_segun(r, vista_eventos(ev@), compartidas.deep_view()),
{
    let ghost v = vista_eventos(ev@);
    let ghost comp = compartidas.deep_view();
    let ghost objetivo = hoja_desde(v, 0, comp, false, Map::empty(), None, Seq::empty());
    let mut en_fila = false;
    let mut celdas: HashMap<usize, String> = HashMap::new();
    let mut abierta: Option<(Option<String>, Option<String>, String)> = None;
    let mut filas: Vec<Vec<String>> = Vec::new();
    let mut i: usize = 0;
    assert(vista_cols(celdas@) =~= Map::<usize, Seq<char>>::empty());
    assert(filas.deep_view() =~= Seq::<Seq<Seq<char>>>::empty());
    while i < ev.len()
        invariant
            i <= ev.len(),
            v == vista_eventos(ev@),
            comp == compartidas.deep_view(),
            objetivo == hoja_desde(v, 0, comp, false, Map::empty(), None, Seq::empty()),
            hoja_desde(
                v,
                i as int,
                comp,
                en_fila,
                vista_cols(celdas@),
                vista_abierta(abierta),
                filas.deep_view(),
            ) == objetivo,
        decreases ev.len() - i,
    {
        let fin = match &ev[i] {
            EventoXml::FinDocumento => true,
            _ => false,
        };
        match abierta {
            Some((referencia, tipo, valor)) => {
                if fin {
                    return match cerrar_celda(&mut celdas, &referencia, &tipo, &valor, compartidas) {
                        Err(m) => Err(m),
                        Ok(()) => Ok(filas),
                    };
                }
                match &ev[i] {
                    EventoXml::Error(m) => {
                        return Err(con_prefijo("XML parse error in sheet cells: ", m));
                    },
                    _ => {},
                }
                if es_apertura(&ev[i], "v") {
                    if i + 1 >= ev.len() {
                        abierta = Some((referencia, tipo, valor));
                        i = i + 1;
                    } else {
                        let nuevo = match &ev[i + 1] {
                            EventoXml::Texto(t) => t.clone(),
                            _ => valor,
                        };
                        abierta = Some((referencia, tipo, nuevo));
                        i = i + 2;
                    }
                } else if es_cierre(&ev[i], "c") {
                    match cerrar_celda(&mut celdas, &referencia, &tipo, &valor, compartidas) {
                        Err(m) => {
                            return Err(m);
                        },
                        Ok(()) => {},
                    }
                    abierta = None;
                    i = i + 1;
                } else {
                    abierta = Some((referencia, tipo, valor));
                    i = i + 1;
                }
            },
            None => {
                if fin {
                    return Ok(filas);
                }
                match &ev[i] {
                    EventoXml::Error(m) => {
                        return Err(con_prefijo("XML parse error in sheet: ", m));
                    },
                    EventoXml::Inicio { nombre, atributos } => {
                        if iguales(nombre.as_str(), "row") {
                            en_fila = true;
                            celdas.clear();
                            assert(vista_cols(celdas@) =~= Map::<usize, Seq<char>>::empty());
                        } else if iguales(nombre.as_str(), "c") && en_fila {
                            let referencia = atributo(atributos, "r");
                            let tipo = atributo(atributos, "t");
                            abierta = Some((referencia, tipo, String::new()));
                        }
                    },
                    EventoXml::Fin { nombre } => {
                        if iguales(nombre.as_str(), "row") {
                            let fila = cerrar_fila(&mut celdas);
                            let ghost antes = filas.deep_view();
                            let ghost fv = fila.deep_view();
                            filas.push(fila);
                            assert(filas.deep_view() =~= antes.push(fv));
                            en_fila = false;
                        }
                    },
                    _ => {},
                }
                i = i + 1;
            },
        }
    }
    match abierta {
        Some((referencia, tipo, valor)) => {
            match cerrar_celda(&mut celdas, &referencia, &tipo, &valor, compartidas) {
                Err(m) => Err(m),
                Ok(()) => Ok(filas),
            }
        },
        None => Ok(filas),
    }
}

/// Las cadenas compartidas escritas en el XML `texto`
/// (`xl/sharedStrings.xml`), según `cadenas_desde` sobre sus eventos.
pub fn leer_cadenas_compartidas(texto: &str) -> (r: Result<Vec<String>, String>)
    ensures
        cadenas_segun(r, tokens_xml(texto@, true)),
{
    let ev = eventos_xml(texto);
    cadenas_de_eventos(&ev)
}

/// La ruta dentro del libro de la hoja `hoja`, a partir del XML del libro
/// (`xl/workbook.xml`) y de sus relaciones (`xl/_rels/workbook.xml.rels`),
/// si están, según `ruta_de_hoja` sobre sus eventos.
pub fn ruta_de_hoja_en_libro(libro: Option<&str>, rels: Option<&str>, hoja: &str) -> (r: Result<
    String,
    String,
>)
    ensures
        ruta_segun(
            r,
            match libro {
                Some(t) => Some(tokens_xml(t@, true)),
                None => None,
            },
            match rels {
                Some(t) => Some(tokens_xml(t@, true)),
                None => None,
            },
            hoja@,
        ),
{
    let el = match libro {
        Some(t) => Some(eventos_xml(t)),
        None => None,
    };
    let er = match rels {
        Some(t) => Some(eventos_xml(t)),
        None => None,
    };
    let r = ruta_hoja_de_eventos(
        match &el {
            Some(v) => Some(v),
            None => None,
        },
        match &er {
            Some(v) => Some(v),
            None => None,
        },
        hoja,
    );
    r
}

/// Las filas de la hoja escrita en el XML `texto`, con las cadenas
/// compartidas del libro, según `hoja_desde` sobre sus eventos.
pub fn filas_de_hoja(texto: &str, compartidas: &Vec<String>) -> (r: Result<Vec<Vec<String>>, String>)
    ensures
        filas_segun(r, tokens_xml(texto@, true), compartidas.deep_view()),
{
    let ev = eventos_xml(texto);
    filas_de_eventos(&ev, compartidas)
}

} // verus!
