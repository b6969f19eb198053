//! Enteros decimales: lectura desde bytes o texto, con la gramática de
//! `FromStr` para enteros de Rust, y escritura en base diez.
use vstd::prelude::*;
use vstd::utf8::encode_utf8;

verus! {

/// Byte de un dígito ASCII.
pub open spec fn es_digito(b: u8) -> bool {
    48 <= b <= 57
}

/// Todos los bytes de `b` son dígitos ASCII.
pub open spec fn son_digitos(b: Seq<u8>) -> bool {
    forall|i: int| 0 <= i < b.len() ==> es_digito(#[trigger] b[i])
}

/// Valor decimal de una secuencia de dígitos.
pub open spec fn valor(b: Seq<u8>) -> nat
    decreases b.len(),
{
    if b.len() == 0 {
        0
    } else {
        valor(b.drop_last()) * 10 + (b.last() - 48) as nat
    }
}

/// Signo opcional (`+` o `-`) seguido de uno o más dígitos: el entero
/// que escribe `b`, sin límite de tamaño.
pub open spec fn entero_escrito(b: Seq<u8>) -> Option<int> {
    if b.len() > 0 && (b[0] == 43 || b[0] == 45) {
        let d = b.drop_first();
        if d.len() > 0 && son_digitos(d) {
            Some(
                if b[0] == 45 {
                    -(valor(d) as int)
                } else {
                    valor(d) as int
                },
            )
        } else {
            None
        }
    } else if b.len() > 0 && son_digitos(b) {
        Some(valor(b) as int)
    } else {
        None
    }
}

/// Lo que da `i32::from_str` sobre los bytes `b`: el entero escrito si
/// cabe en un `i32`.
pub open spec fn lectura_i32(b: Seq<u8>) -> Option<i32> {
    match entero_escrito(b) {
        Some(v) => if i32::MIN <= v <= i32::MAX {
            Some(v as i32)
        } else {
            None
        },
        None => None,
    }
}

/// Lo que da `usize::from_str` sobre los bytes `b`: como en
/// `lectura_i32`, pero sin signo menos.
pub open spec fn lectura_usize(b: Seq<u8>) -> Option<usize> {
    if b.len() > 0 && b[0] == 45 {
        None
    } else {
        match entero_escrito(b) {
            Some(v) => if 0 <= v <= usize::MAX {
                Some(v as usize)
            } else {
                None
            },
            None => None,
        }
    }
}

/// Un prefijo de dígitos no vale más que el total.
pub proof fn lema_valor_creciente(d: Seq<u8>, k: int)
    requires
        son_digitos(d),
        0 <= k <= d.len(),
    ensures
        valor(d.take(k)) <= valor(d),
    decreases d.len() - k,
{
    if k < d.len() {
        lema_valor_creciente(d, k + 1);
        assert(d.take(k + 1).drop_last() =~= d.take(k));
    } else {
        assert(d.take(k) =~= d);
    }
}

/// El valor de `b[ini..fin]` si son todos dígitos y no pasa de `tope`.
fn valor_acotado(b: &[u8], ini: usize, fin: usize, tope: u64) -> (r: Option<u64>)
    requires
        ini <= fin <= b@.len(),
    ensures
        r == (if son_digitos(b@.subrange(ini as int, fin as int)) && valor(
            b@.subrange(ini as int, fin as int),
        ) <= tope {
            Some(valor(b@.subrange(ini as int, fin as int)) as u64)
        } else {
            None
        }),
{
    let ghost d = b@.subrange(ini as int, fin as int);
    let mut i: usize = ini;
    while i < fin
        invariant
            ini <= i <= fin <= b@.len(),
            d == b@.subrange(ini as int, fin as int),
            forall|j: int| 0 <= j < i - ini ==> es_digito(#[trigger] d[j]),
        decreases fin - i,
    {
        if b[i] < 48 || b[i] > 57 {
            assert(!es_digito(d[i - ini]));
            return None;
        }
        i = i + 1;
    }
    let mut acc: u128 = 0;
    let mut i: usize = ini;
    assert(d.take(0) =~= Seq::<u8>::empty());
    while i < fin
        invariant
            ini <= i <= fin <= b@.len(),
            d == b@.subrange(ini as int, fin as int),
            son_digitos(d),
            acc == valor(d.take(i - ini)),
            acc <= tope,
        decreases fin - i,
    {
        assert(d.take(i - ini + 1).drop_last() =~= d.take(i - ini));
        assert(d.take(i - ini + 1).last() == b[i as int]);
        let v = acc * 10 + (b[i] - 48) as u128;
        if v > tope as u128 {
            proof {
                lema_valor_creciente(d, i - ini + 1);
            }
            return None;
        }
        acc = v;
        i = i + 1;
    }
    assert(d.take(fin - ini) =~= d);
    Some(acc as u64)
}

/// Lee un `i32` escrito en `b[ini..fin]` (signo opcional y dígitos).
pub fn leer_i32_rango(b: &[u8], ini: usize, fin: usize) -> (r: Option<i32>)
    requires
        ini <= fin <= b@.len(),
    ensures
        r == lectura_i32(b@.subrange(ini as int, fin as int)),
{
    let ghost t = b@.subrange(ini as int, fin as int);
    if ini == fin {
        return None;
    }
    if b[ini] == 43 || b[ini] == 45 {
        if fin - ini == 1 {
            return None;
        }
        let negativo = b[ini] == 45;
        assert(b@.subrange(ini + 1, fin as int) =~= t.drop_first());
        let tope: u64 = if negativo {
            2147483648
        } else {
            2147483647
        };
        match valor_acotado(b, ini + 1, fin, tope) {
            Some(v) => {
                if negativo {
                    Some((0i64 - v as i64) as i32)
                } else {
                    Some(v as i32)
                }
            },
            None => None,
        }
    } else {
        match valor_acotado(b, ini, fin, 2147483647) {
            Some(v) => Some(v as i32),
            None => None,
        }
    }
}

/// Lee un `i32` escrito en `b` (signo opcional y dígitos).
pub fn leer_i32_bytes(b: &[u8]) -> (r: Option<i32>)
    ensures
        r == lectura_i32(b@),
{
    assert(b@.subrange(0, b@.len() as int) =~= b@);
    leer_i32_rango(b, 0, b.len())
}

/// Lee un `usize` escrito en `b` (signo `+` opcional y dígitos).
pub fn leer_usize_bytes(b: &[u8]) -> (r: Option<usize>)
    ensures
        r == lectura_usize(b@),
{
    let n = b.len();
    assert(b@.subrange(0, n as int) =~= b@);
    if n == 0 {
        return None;
    }
    if b[0] == 45 {
        return None;
    }
    let ini: usize = if b[0] == 43 {
        1
    } else {
        0
    };
    if ini == 1 && n == 1 {
        return None;
    }
    assert(b@.subrange(1, n as int) =~= b@.drop_first());
    match valor_acotado(b, ini, n, usize::MAX as u64) {
        Some(v) => Some(v as usize),
        None => None,
    }
}

/// Lee un `i32` escrito en el texto `s` (lo que hace `s.parse::<i32>()`).
pub fn leer_i32(s: &str) -> (r: Option<i32>)
    ensures
        r == lectura_i32(encode_utf8(s@)),
{
    leer_i32_bytes(s.as_bytes())
}

/// Lee un `usize` escrito en el texto `s` (lo que hace `s.parse::<usize>()`).
pub fn leer_usize(s: &str) -> (r: Option<usize>)
    ensures
        r == lectura_usize(encode_utf8(s@)),
{
    leer_usize_bytes(s.as_bytes())
}

/// El carácter del dígito `d` (< 10).
pub open spec fn digito(d: nat) -> char {
    if d == 0 {
        '0'
    } else if d == 1 {
        '1'
    } else if d == 2 {
        '2'
    } else if d == 3 {
        '3'
    } else if d == 4 {
        '4'
    } else if d == 5 {
        '5'
    } else if d == 6 {
        '6'
    } else if d == 7 {
        '7'
    } else if d == 8 {
        '8'
    } else {
        '9'
    }
}

/// Escritura decimal de `n`, sin ceros a la izquierda.
pub open spec fn texto_natural(n: nat) -> Seq<char>
    decreases n,
{
    if n < 10 {
        seq![digito(n)]
    } else {
        texto_natural(n / 10) + seq![digito(n % 10)]
    }
}

/// Escritura decimal de `v`, con `-` delante si es negativo (lo que da
/// `to_string` sobre un entero).
pub open spec fn texto_entero(v: int) -> Seq<char> {
    if v < 0 {
        seq!['-'] + texto_natural((-v) as nat)
    } else {
        texto_natural(v as nat)
    }
}

fn digito_texto(d: u64) -> (r: &'static str)
    requires
        d < 10,
    ensures
        r@ == seq![digito(d as nat)],
{
    proof {
        reveal_strlit("0");
        reveal_strlit("1");
        reveal_strlit("2");
        reveal_strlit("3");
        reveal_strlit("4");
        reveal_strlit("5");
        reveal_strlit("6");
        reveal_strlit("7");
        reveal_strlit("8");
        reveal_strlit("9");
    }
    if d == 0 {
        "0"
    } else if d == 1 {
        "1"
    } else if d == 2 {
        "2"
    } else if d == 3 {
        "3"
    } else if d == 4 {
        "4"
    } else if d == 5 {
        "5"
    } else if d == 6 {
        "6"
    } else if d == 7 {
        "7"
    } else if d == 8 {
        "8"
    } else {
        "9"
    }
}

/// Escribe `n` en base diez.
pub fn escribir_natural(n: u64) -> (r: String)
    ensures
        r@ == texto_natural(n as nat),
    decreases n,
{
    if n < 10 {
        let mut r = String::new();
        r.append(digito_texto(n));
        r
    } else {
        let mut r = escribir_natural(n / 10);
        r.append(digito_texto(n % 10));
        r
    }
}

/// Escribe `v` en base diez, con signo si es negativo.
pub fn escribir_entero64(v: i64) -> (r: String)
    ensures
        r@ == texto_entero(v as int),
{
    if v < 0 {
        let m = (0i128 - v as i128) as u64;
        let mut r = String::new();
        proof {
            reveal_strlit("-");
        }
        r.append("-");
        let t = escribir_natural(m);
        r.append(t.as_str());
        r
    } else {
        escribir_natural(v as u64)
    }
}

/// Escribe `v` en base diez, con signo si es negativo.
pub fn escribir_entero(v: i32) -> (r: String)
    ensures
        r@ == texto_entero(v as int),
{
    escribir_entero64(v as i64)
}

} // verus!
