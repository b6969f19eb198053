//! Datos de secciones y ramos escritos en JSON, ya leídos: conversión a
//! las estructuras del planificador con sus valores por omisión.
use vstd::prelude::*;
use crate::excel::{caja_derivada, horario_de_texto};
use crate::models::{
    MapaRamos, RamoDisponible, RamoVista, Seccion, SeccionVista, claves_distintas, con_entrada,
    copiar_opcional, copiar_textos, ley_leer_lo_escrito, ramo_de, vista_opcional, vista_secciones,
};
use crate::texto::{copiar, lema_trozos_no_vacio, partir, Separador};

verus! {

/// Una sección tal como viene en el JSON.
#[derive(Debug, Clone)]
pub struct JsonSeccion {
    pub codigo: String,
    pub nombre: Option<String>,
    pub seccion: Option<String>,
    pub horario: Option<Vec<String>>,
    pub profesor: Option<String>,
    pub codigo_box: Option<String>,
}

/// Un ramo tal como viene en el JSON.
#[derive(Debug, Clone)]
pub struct JsonRamo {
    pub codigo: String,
    pub nombre: Option<String>,
    pub aprobados: Option<i32>,
    pub prioridad: Option<i32>,
    pub codigo_ref: Option<String>,
}

/// El documento JSON: secciones y ramos disponibles, ambos opcionales.
#[derive(Debug, Clone)]
pub struct JsonInput {
    pub secciones: Option<Vec<JsonSeccion>>,
    pub ramos_disponibles: Option<Vec<JsonRamo>>,
}

/// El texto opcional, o `si_falta`.
pub open spec fn texto_o(o: Option<String>, si_falta: Seq<char>) -> Seq<char> {
    match o {
        Some(s) => s@,
        None => si_falta,
    }
}

/// La sección que describe una entrada del JSON: `Sin nombre`, `1`,
/// `Sin horario` y `Sin asignar` donde faltan datos, y la caja deducida
/// del código (lo que precede al primer guion) si no viene.
pub open spec fn seccion_de_json(s: JsonSeccion) -> SeccionVista {
    SeccionVista {
        codigo: s.codigo@,
        nombre: texto_o(s.nombre, "Sin nombre"@),
        seccion: texto_o(s.seccion, "1"@),
        horario: match s.horario {
            Some(h) => h.deep_view(),
            None => horario_de_texto(Seq::empty()),
        },
        profesor: texto_o(s.profesor, "Sin asignar"@),
        codigo_box: match s.codigo_box {
            Some(c) => c@,
            None => caja_derivada(s.codigo@),
        },
    }
}

/// El ramo que describe una entrada del JSON: nombre vacío si falta;
/// holgura y correlativo 0, no crítico y sin dificultad.
pub open spec fn ramo_de_json(r: JsonRamo) -> RamoVista {
    RamoVista {
        nombre: texto_o(r.nombre, Seq::empty()),
        codigo: r.codigo@,
        holgura: 0,
        numb_correlativo: 0,
        critico: false,
        codigo_ref: vista_opcional(r.codigo_ref),
        dificultad: None,
    }
}

/// Los ramos del JSON por código (uno posterior con el mismo código
/// reemplaza al anterior).
pub open spec fn ramos_de_json(rs: Seq<JsonRamo>) -> Seq<(Seq<char>, RamoVista)>
    decreases rs.len(),
{
    if rs.len() == 0 {
        Seq::empty()
    } else {
        con_entrada(ramos_de_json(rs.drop_last()), rs.last().codigo@, ramo_de_json(rs.last()))
    }
}

fn texto_o_exec(o: &Option<String>, si_falta: &str) -> (r: String)
    ensures
        r@ == texto_o(*o, si_falta@),
{
    match o {
        Some(s) => s.clone(),
        None => copiar(si_falta),
    }
}

fn seccion_desde_json(s: &JsonSeccion) -> (r: Seccion)
    ensures
        r@ == seccion_de_json(*s),
{
    let horario = match &s.horario {
        Some(h) => copiar_textos(h),
        None => {
            let mut v: Vec<String> = Vec::new();
            v.push(copiar("Sin horario"));
            proof {
                reveal_strlit("");
            }
            assert(v.deep_view() =~= horario_de_texto(Seq::empty()));
            v
        },
    };
    let codigo_box = match &s.codigo_box {
        Some(c) => c.clone(),
        None => {
            let t = partir(s.codigo.as_str(), &Separador::Guion);
            proof {
                lema_trozos_no_vacio(s.codigo@, Separador::Guion);
            }
            assert(t.deep_view()[0] == t[0]@);
            t[0].clone()
        },
    };
    Seccion {
        codigo: s.codigo.clone(),
        nombre: texto_o_exec(&s.nombre, "Sin nombre"),
        seccion: texto_o_exec(&s.seccion, "1"),
        horario: horario,
        profesor: texto_o_exec(&s.profesor, "Sin asignar"),
        codigo_box: codigo_box,
    }
}

fn ramo_desde_json(r: &JsonRamo) -> (x: RamoDisponible)
    ensures
        x@ == ramo_de_json(*r),
{
    proof {
        reveal_strlit("");
        assert(""@ =~= Seq::<char>::empty());
    }
    RamoDisponible {
        nombre: texto_o_exec(&r.nombre, ""),
        codigo: r.codigo.clone(),
        holgura: 0,
        numb_correlativo: 0,
        critico: false,
        codigo_ref: copiar_opcional(&r.codigo_ref),
        dificultad: None,
    }
}

/// Las secciones y los ramos del documento JSON.
pub fn datos_desde_json(parsed: &JsonInput) -> (r: (Vec<Seccion>, MapaRamos))
    ensures
        vista_secciones(r.0@) == match parsed.secciones {
            Some(v) => v@.map_values(|s: JsonSeccion| seccion_de_json(s)),
            None => Seq::empty(),
        },
        r.1@ == match parsed.ramos_disponibles {
            Some(v) => ramos_de_json(v@),
            None => Seq::empty(),
        },
{
    let mut secciones: Vec<Seccion> = Vec::new();
    match &parsed.secciones {
        Some(js) => {
            let mut i: usize = 0;
            while i < js.len()
                invariant
                    i <= js.len(),
                    secciones.len() == i,
                    forall|j: int| 0 <= j < i ==> #[trigger] secciones[j]@ == seccion_de_json(js[j]),
                decreases js.len() - i,
            {
                secciones.push(seccion_desde_json(&js[i]));
                i = i + 1;
            }
            assert(vista_secciones(secciones@) =~= js@.map_values(
                |s: JsonSeccion| seccion_de_json(s),
            ));
        },
        None => {
            assert(vista_secciones(secciones@) =~= Seq::<SeccionVista>::empty());
        },
    }
    let mut ramos = MapaRamos::new();
    match &parsed.ramos_disponibles {
        Some(rs) => {
            let mut i: usize = 0;
            assert(rs@.take(0) =~= Seq::<JsonRamo>::empty());
            while i < rs.len()
                invariant
                    i <= rs.len(),
                    ramos@ == ramos_de_json(rs@.take(i as int)),
                decreases rs.len() - i,
            {
                assert(rs@.take(i + 1).drop_last() =~= rs@.take(i as int));
                assert(rs@.take(i + 1).last() == rs[i as int]);
                let rd = ramo_desde_json(&rs[i]);
                ramos.insert(rs[i].codigo.clone(), rd);
                i = i + 1;
            }
            assert(rs@.take(rs.len() as int) =~= rs@);
        },
        None => {},
    }
    (secciones, ramos)
}


/// La entrada `j` es la última de `rs` con el código `k`.
pub open spec fn es_ultimo_ramo(rs: Seq<JsonRamo>, k: Seq<char>, j: int) -> bool {
    &&& 0 <= j < rs.len()
    &&& rs[j].codigo@ == k
    &&& forall|q: int| j < q < rs.len() ==> (#[trigger] rs[q]).codigo@ != k
}

/// Ley: en los ramos leídos del JSON no hay dos con el mismo código; el
/// ramo de un código es el de la última entrada con ese código, con su
/// nombre (vacío si falta), su `codigo_ref` tal como viene, holgura y
/// correlativo 0, no crítico y sin dificultad; y un código sin entradas no
/// tiene ramo.
pub proof fn ley_ramos_de_json(rs: Seq<JsonRamo>, k: Seq<char>, j: int)
    ensures
        claves_distintas(ramos_de_json(rs)),
        es_ultimo_ramo(rs, k, j) ==> ramo_de(ramos_de_json(rs), k) == Some(
            RamoVista {
                nombre: match rs[j].nombre {
                    Some(n) => n@,
                    None => Seq::empty(),
                },
                codigo: k,
                holgura: 0,
                numb_correlativo: 0,
                critico: false,
                codigo_ref: match rs[j].codigo_ref {
                    Some(c) => Some(c@),
                    None => None,
                },
                dificultad: None,
            },
        ),
        (forall|q: int| 0 <= q < rs.len() ==> (#[trigger] rs[q]).codigo@ != k) ==> ramo_de(
            ramos_de_json(rs),
            k,
        ) is None,
    decreases rs.len(),
{
    if rs.len() == 0 {
        assert(ramos_de_json(rs) =~= Seq::<(Seq<char>, RamoVista)>::empty());
    } else {
        let r2 = rs.drop_last();
        let u = rs.last();
        let m = ramos_de_json(r2);
        if j == rs.len() - 1 {
            ley_ramos_de_json(r2, k, 0);
        } else if es_ultimo_ramo(rs, k, j) {
            assert(u.codigo@ != k) by {
                assert(rs[rs.len() - 1] == u);
            }
            assert(es_ultimo_ramo(r2, k, j)) by {
                assert forall|q: int| j < q < r2.len() implies (#[trigger] r2[q]).codigo@ != k by {
                    assert(r2[q] == rs[q]);
                }
            }
            ley_ramos_de_json(r2, k, j);
        } else {
            ley_ramos_de_json(r2, k, j);
        }
        if forall|q: int| 0 <= q < rs.len() ==> (#[trigger] rs[q]).codigo@ != k {
            assert(u.codigo@ != k) by {
                assert(rs[rs.len() - 1] == u);
            }
            assert forall|q: int| 0 <= q < r2.len() implies (#[trigger] r2[q]).codigo@ != k by {
                assert(r2[q] == rs[q]);
            }
            ley_ramos_de_json(r2, k, j);
        }
        ley_leer_lo_escrito(m, u.codigo@, ramo_de_json(u));
    }
}

} // verus!
