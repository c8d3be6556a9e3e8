use vstd::prelude::*;
use crate::header::{
    de_quote_spec, dict_scan, dict_start, dict_step, lemma_dict_scan_append, lemma_dict_scan_push,
    tuple_scan, tuple_step, DictModel, TupleScan,
};
use crate::load::{
    checked_product, descr_key, f4_code, find_close_brace, npy_load, npy_load_data, numpy_word,
    shape_key, NpyLoad,
};
use crate::header::{lookup, tuple_outcome, tuple_start};
use crate::numpy::{ascii_bytes, cells_bytes, layers_bytes, layers_npy, layers_shape, npy_header, npy_magic};
use crate::grid::Grid;
use crate::vector::Vector;
use crate::load::{layers_read, value_bytes};
use crate::archive::{first_entry, layers_load, zip_signature};
use vstd::utf8::{decode_utf8, encode_utf8, is_ascii_chars, valid_utf8};
use crate::text::{strip_quotes, strip_quotes_end, strip_quotes_start, trim, trim_end, trim_start};
use crate::numpy::{
    decimal, digit_char, header_close, header_open, header_text, lemma_decimal_digits,
    lemma_shape_text_chars, shape_char, shape_text,
};

verus! {

/// Reading a number written in decimal leaves it as the current entry.
proof fn lemma_tuple_scan_decimal(n: nat, out: Seq<u32>, in_beginning: bool)
    requires
        n <= u32::MAX,
    ensures
        tuple_scan(
            TupleScan::Running { first: false, current: 0, out, in_beginning },
            decimal(n),
        ) == (TupleScan::Running { first: false, current: n as u32, out, in_beginning: false }),
    decreases n,
{
    let start = TupleScan::Running { first: false, current: 0, out, in_beginning };
    let d = digit_char((n % 10) as int);
    assert(d == digit_char((n % 10) as int));
    if n < 10 {
        assert(decimal(n) == seq![d]);
        assert(seq![d].drop_first().len() == 0);
        assert(tuple_scan(tuple_step(start, d), seq![d].drop_first()) == tuple_step(start, d));
    } else {
        lemma_tuple_scan_decimal(n / 10, out, in_beginning);
        crate::header::lemma_tuple_scan_push(start, decimal(n / 10), d);
    }
}

/// Reading shape entries separated by `", "` leaves every entry but the
/// last read and the last as the current entry.
proof fn lemma_tuple_scan_shape(s: Seq<u32>, out: Seq<u32>)
    requires
        s.len() >= 1,
    ensures
        tuple_scan(
            TupleScan::Running { first: false, current: 0, out, in_beginning: true },
            shape_text(s),
        ) == (TupleScan::Running {
            first: false,
            current: s.last(),
            out: out + s.drop_last(),
            in_beginning: false,
        }),
    decreases s.len(),
{
    let start = TupleScan::Running { first: false, current: 0, out, in_beginning: true };
    if s.len() == 1 {
        lemma_tuple_scan_decimal(s[0] as nat, out, true);
        assert(out + s.drop_last() == out);
    } else {
        let init = s.drop_last();
        lemma_tuple_scan_shape(init, out);
        let mid = TupleScan::Running {
            first: false,
            current: init.last(),
            out: out + init.drop_last(),
            in_beginning: false,
        };
        let sep = seq![',', ' '];
        crate::header::lemma_tuple_scan_append(start, shape_text(init), sep);
        assert(sep.drop_first() == seq![' ']);
        assert(seq![' '].drop_first().len() == 0);
        let after_comma = TupleScan::Running {
            first: false,
            current: 0,
            out: (out + init.drop_last()).push(init.last()),
            in_beginning: true,
        };
        assert(tuple_step(mid, ',') == after_comma);
        assert(tuple_step(after_comma, ' ') == after_comma);
        assert(sep[0] == ',');
        assert(seq![' '][0] == ' ');
        assert(tuple_scan(after_comma, seq![' ']) == tuple_scan(
            tuple_step(after_comma, ' '),
            seq![' '].drop_first(),
        ));
        assert(tuple_scan(after_comma, seq![' ']) == after_comma);
        assert(tuple_scan(mid, sep) == tuple_scan(tuple_step(mid, ','), sep.drop_first()));
        assert(tuple_scan(mid, sep) == after_comma);
        lemma_tuple_scan_decimal(s.last() as nat, (out + init.drop_last()).push(init.last()), true);
        crate::header::lemma_tuple_scan_append(start, shape_text(init) + sep, decimal(s.last() as nat));
        assert(shape_text(s) == shape_text(init) + sep + decimal(s.last() as nat));
        assert((out + init.drop_last()).push(init.last()) == out + s.drop_last());
    }
}

/// A character that the dictionary scan only appends to the name or value.
spec fn plain_for(st: DictModel, c: char) -> bool {
    &&& !(c == '"' || c == '\'')
    &&& !(c == ':' && !st.in_str)
    &&& !(c == ',' && !st.in_str && !st.in_paren)
    &&& c != '('
    &&& c != ')'
}

spec fn plain_result(st: DictModel, w: Seq<char>) -> DictModel {
    DictModel {
        name: if st.in_name {
            st.name + w
        } else {
            st.name
        },
        data: if st.in_data {
            st.data + w
        } else {
            st.data
        },
        ..st
    }
}

proof fn lemma_dict_scan_plain(st: DictModel, w: Seq<char>)
    requires
        forall|i: int| 0 <= i < w.len() ==> plain_for(st, #[trigger] w[i]),
    ensures
        dict_scan(st, w) == Some(plain_result(st, w)),
    decreases w.len(),
{
    if w.len() == 0 {
        assert(plain_result(st, w) =~~= st);
    } else {
        let next = plain_result(st, seq![w[0]]);
        assert(plain_for(st, w[0]));
        assert(dict_step(st, w[0]) =~~= Some(next));
        assert forall|i: int| 0 <= i < w.drop_first().len() implies plain_for(
            next,
            #[trigger] w.drop_first()[i],
        ) by {
            assert(w.drop_first()[i] == w[i + 1]);
        }
        lemma_dict_scan_plain(next, w.drop_first());
        assert(plain_result(next, w.drop_first()) =~~= plain_result(st, w));
    }
}

proof fn lemma_scan_extend_char(p: Seq<char>, s: DictModel, c: char)
    requires
        dict_scan(dict_start(), p) == Some(s),
    ensures
        dict_scan(dict_start(), p.push(c)) == dict_step(s, c),
{
    lemma_dict_scan_push(dict_start(), p, c);
}

proof fn lemma_scan_extend_plain(p: Seq<char>, s: DictModel, w: Seq<char>)
    requires
        dict_scan(dict_start(), p) == Some(s),
        forall|i: int| 0 <= i < w.len() ==> plain_for(s, #[trigger] w[i]),
    ensures
        dict_scan(dict_start(), p + w) == Some(plain_result(s, w)),
{
    lemma_dict_scan_append(dict_start(), p, w);
    lemma_dict_scan_plain(s, w);
}

/// One more character read: the scan goes on from the state it had.
proof fn lemma_scan_char(p: Seq<char>, s: DictModel, c: char, t: DictModel) -> (q: Seq<char>)
    requires
        dict_scan(dict_start(), p) == Some(s),
        dict_step(s, c) =~~= Some(t),
    ensures
        q == p.push(c),
        dict_scan(dict_start(), q) == Some(t),
{
    lemma_scan_extend_char(p, s, c);
    p.push(c)
}

/// A run of plain characters read: they go to the name or the value.
proof fn lemma_scan_plain_run(p: Seq<char>, s: DictModel, w: Seq<char>, t: DictModel) -> (q: Seq<char>)
    requires
        dict_scan(dict_start(), p) == Some(s),
        forall|i: int| 0 <= i < w.len() ==> plain_for(s, #[trigger] w[i]),
        plain_result(s, w) =~~= t,
    ensures
        q == p + w,
        dict_scan(dict_start(), q) == Some(t),
{
    lemma_scan_extend_plain(p, s, w);
    p + w
}

/// The scan over the fixed part of the header before the shape entries,
/// `{'descr': '<f4', 'fortran_order': False, 'shape': (`, followed piece by
/// piece: each special character and each run of plain characters, with the
/// scan state after it.
proof fn lemma_header_prefix_scan()
    ensures
        dict_scan(dict_start(), crate::numpy::header_open().skip(1)) == Some(header_prefix_state()),
{
    reveal_with_fuel(trim_start, 3);
    reveal_with_fuel(trim_end, 3);
    reveal_with_fuel(strip_quotes_start, 3);
    reveal_with_fuel(strip_quotes_end, 3);
    let t0 = Seq::<char>::empty();
    let s0 = dict_start();
    let s1 = DictModel { in_str: true, in_name: true, in_data: false, in_paren: false, name: seq!['\''], data: Seq::<char>::empty(), items: Seq::<(Seq<char>, Seq<char>)>::empty() };
    let t1 = lemma_scan_char(t0, s0, '\'', s1);
    let s2 = DictModel { in_str: true, in_name: true, in_data: false, in_paren: false, name: seq!['\'', 'd', 'e', 's', 'c', 'r'], data: Seq::<char>::empty(), items: Seq::<(Seq<char>, Seq<char>)>::empty() };
    let t2 = lemma_scan_plain_run(t1, s1, seq!['d', 'e', 's', 'c', 'r'], s2);
    let s3 = DictModel { in_str: false, in_name: true, in_data: false, in_paren: false, name: seq!['\'', 'd', 'e', 's', 'c', 'r', '\''], data: Seq::<char>::empty(), items: Seq::<(Seq<char>, Seq<char>)>::empty() };
    let t3 = lemma_scan_char(t2, s2, '\'', s3);
    let s4 = DictModel { in_str: false, in_name: false, in_data: true, in_paren: false, name: seq!['\'', 'd', 'e', 's', 'c', 'r', '\''], data: Seq::<char>::empty(), items: Seq::<(Seq<char>, Seq<char>)>::empty() };
    let t4 = lemma_scan_char(t3, s3, ':', s4);
    let s5 = DictModel { in_str: false, in_name: false, in_data: true, in_paren: false, name: seq!['\'', 'd', 'e', 's', 'c', 'r', '\''], data: seq![' '], items: Seq::<(Seq<char>, Seq<char>)>::empty() };
    let t5 = lemma_scan_char(t4, s4, ' ', s5);
    let s6 = DictModel { in_str: true, in_name: false, in_data: true, in_paren: false, name: seq!['\'', 'd', 'e', 's', 'c', 'r', '\''], data: seq![' ', '\''], items: Seq::<(Seq<char>, Seq<char>)>::empty() };
    let t6 = lemma_scan_char(t5, s5, '\'', s6);
    let s7 = DictModel { in_str: true, in_name: false, in_data: true, in_paren: false, name: seq!['\'', 'd', 'e', 's', 'c', 'r', '\''], data: seq![' ', '\'', '<', 'f', '4'], items: Seq::<(Seq<char>, Seq<char>)>::empty() };
    let t7 = lemma_scan_plain_run(t6, s6, seq!['<', 'f', '4'], s7);
    let s8 = DictModel { in_str: false, in_name: false, in_data: true, in_paren: false, name: seq!['\'', 'd', 'e', 's', 'c', 'r', '\''], data: seq![' ', '\'', '<', 'f', '4', '\''], items: Seq::<(Seq<char>, Seq<char>)>::empty() };
    let t8 = lemma_scan_char(t7, s7, '\'', s8);
    let s9 = DictModel { in_str: false, in_name: true, in_data: false, in_paren: false, name: Seq::<char>::empty(), data: Seq::<char>::empty(), items: seq![(seq!['d', 'e', 's', 'c', 'r'], seq!['\'', '<', 'f', '4', '\''])] };
    let t9 = lemma_scan_char(t8, s8, ',', s9);
    let s10 = DictModel { in_str: false, in_name: true, in_data: false, in_paren: false, name: seq![' '], data: Seq::<char>::empty(), items: seq![(seq!['d', 'e', 's', 'c', 'r'], seq!['\'', '<', 'f', '4', '\''])] };
    let t10 = lemma_scan_char(t9, s9, ' ', s10);
    let s11 = DictModel { in_str: true, in_name: true, in_data: false, in_paren: false, name: seq![' ', '\''], data: Seq::<char>::empty(), items: seq![(seq!['d', 'e', 's', 'c', 'r'], seq!['\'', '<', 'f', '4', '\''])] };
    let t11 = lemma_scan_char(t10, s10, '\'', s11);
    let s12 = DictModel { in_str: true, in_name: true, in_data: false, in_paren: false, name: seq![' ', '\'', 'f', 'o', 'r', 't', 'r', 'a', 'n', '_', 'o', 'r', 'd', 'e', 'r'], data: Seq::<char>::empty(), items: seq![(seq!['d', 'e', 's', 'c', 'r'], seq!['\'', '<', 'f', '4', '\''])] };
    let t12 = lemma_scan_plain_run(t11, s11, seq!['f', 'o', 'r', 't', 'r', 'a', 'n', '_', 'o', 'r', 'd', 'e', 'r'], s12);
    let s13 = DictModel { in_str: false, in_name: true, in_data: false, in_paren: false, name: seq![' ', '\'', 'f', 'o', 'r', 't', 'r', 'a', 'n', '_', 'o', 'r', 'd', 'e', 'r', '\''], data: Seq::<char>::empty(), items: seq![(seq!['d', 'e', 's', 'c', 'r'], seq!['\'', '<', 'f', '4', '\''])] };
    let t13 = lemma_scan_char(t12, s12, '\'', s13);
    let s14 = DictModel { in_str: false, in_name: false, in_data: true, in_paren: false, name: seq![' ', '\'', 'f', 'o', 'r', 't', 'r', 'a', 'n', '_', 'o', 'r', 'd', 'e', 'r', '\''], data: Seq::<char>::empty(), items: seq![(seq!['d', 'e', 's', 'c', 'r'], seq!['\'', '<', 'f', '4', '\''])] };
    let t14 = lemma_scan_char(t13, s13, ':', s14);
    let s15 = DictModel { in_str: false, in_name: false, in_data: true, in_paren: false, name: seq![' ', '\'', 'f', 'o', 'r', 't', 'r', 'a', 'n', '_', 'o', 'r', 'd', 'e', 'r', '\''], data: seq![' '], items: seq![(seq!['d', 'e', 's', 'c', 'r'], seq!['\'', '<', 'f', '4', '\''])] };
    let t15 = lemma_scan_char(t14, s14, ' ', s15);
    let s16 = DictModel { in_str: false, in_name: false, in_data: true, in_paren: false, name: seq![' ', '\'', 'f', 'o', 'r', 't', 'r', 'a', 'n', '_', 'o', 'r', 'd', 'e', 'r', '\''], data: seq![' ', 'F', 'a', 'l', 's', 'e'], items: seq![(seq!['d', 'e', 's', 'c', 'r'], seq!['\'', '<', 'f', '4', '\''])] };
    let t16 = lemma_scan_plain_run(t15, s15, seq!['F', 'a', 'l', 's', 'e'], s16);
    let s17 = DictModel { in_str: false, in_name: true, in_data: false, in_paren: false, name: Seq::<char>::empty(), data: Seq::<char>::empty(), items: seq![(seq!['d', 'e', 's', 'c', 'r'], seq!['\'', '<', 'f', '4', '\'']), (seq!['f', 'o', 'r', 't', 'r', 'a', 'n', '_', 'o', 'r', 'd', 'e', 'r'], seq!['F', 'a', 'l', 's', 'e'])] };
    let t17 = lemma_scan_char(t16, s16, ',', s17);
    let s18 = DictModel { in_str: false, in_name: true, in_data: false, in_paren: false, name: seq![' '], data: Seq::<char>::empty(), items: seq![(seq!['d', 'e', 's', 'c', 'r'], seq!['\'', '<', 'f', '4', '\'']), (seq!['f', 'o', 'r', 't', 'r', 'a', 'n', '_', 'o', 'r', 'd', 'e', 'r'], seq!['F', 'a', 'l', 's', 'e'])] };
    let t18 = lemma_scan_char(t17, s17, ' ', s18);
    let s19 = DictModel { in_str: true, in_name: true, in_data: false, in_paren: false, name: seq![' ', '\''], data: Seq::<char>::empty(), items: seq![(seq!['d', 'e', 's', 'c', 'r'], seq!['\'', '<', 'f', '4', '\'']), (seq!['f', 'o', 'r', 't', 'r', 'a', 'n', '_', 'o', 'r', 'd', 'e', 'r'], seq!['F', 'a', 'l', 's', 'e'])] };
    let t19 = lemma_scan_char(t18, s18, '\'', s19);
    let s20 = DictModel { in_str: true, in_name: true, in_data: false, in_paren: false, name: seq![' ', '\'', 's', 'h', 'a', 'p', 'e'], data: Seq::<char>::empty(), items: seq![(seq!['d', 'e', 's', 'c', 'r'], seq!['\'', '<', 'f', '4', '\'']), (seq!['f', 'o', 'r', 't', 'r', 'a', 'n', '_', 'o', 'r', 'd', 'e', 'r'], seq!['F', 'a', 'l', 's', 'e'])] };
    let t20 = lemma_scan_plain_run(t19, s19, seq!['s', 'h', 'a', 'p', 'e'], s20);
    let s21 = DictModel { in_str: false, in_name: true, in_data: false, in_paren: false, name: seq![' ', '\'', 's', 'h', 'a', 'p', 'e', '\''], data: Seq::<char>::empty(), items: seq![(seq!['d', 'e', 's', 'c', 'r'], seq!['\'', '<', 'f', '4', '\'']), (seq!['f', 'o', 'r', 't', 'r', 'a', 'n', '_', 'o', 'r', 'd', 'e', 'r'], seq!['F', 'a', 'l', 's', 'e'])] };
    let t21 = lemma_scan_char(t20, s20, '\'', s21);
    let s22 = DictModel { in_str: false, in_name: false, in_data: true, in_paren: false, name: seq![' ', '\'', 's', 'h', 'a', 'p', 'e', '\''], data: Seq::<char>::empty(), items: seq![(seq!['d', 'e', 's', 'c', 'r'], seq!['\'', '<', 'f', '4', '\'']), (seq!['f', 'o', 'r', 't', 'r', 'a', 'n', '_', 'o', 'r', 'd', 'e', 'r'], seq!['F', 'a', 'l', 's', 'e'])] };
    let t22 = lemma_scan_char(t21, s21, ':', s22);
    let s23 = DictModel { in_str: false, in_name: false, in_data: true, in_paren: false, name: seq![' ', '\'', 's', 'h', 'a', 'p', 'e', '\''], data: seq![' '], items: seq![(seq!['d', 'e', 's', 'c', 'r'], seq!['\'', '<', 'f', '4', '\'']), (seq!['f', 'o', 'r', 't', 'r', 'a', 'n', '_', 'o', 'r', 'd', 'e', 'r'], seq!['F', 'a', 'l', 's', 'e'])] };
    let t23 = lemma_scan_char(t22, s22, ' ', s23);
    let s24 = DictModel { in_str: false, in_name: false, in_data: true, in_paren: true, name: seq![' ', '\'', 's', 'h', 'a', 'p', 'e', '\''], data: seq![' ', '('], items: seq![(seq!['d', 'e', 's', 'c', 'r'], seq!['\'', '<', 'f', '4', '\'']), (seq!['f', 'o', 'r', 't', 'r', 'a', 'n', '_', 'o', 'r', 'd', 'e', 'r'], seq!['F', 'a', 'l', 's', 'e'])] };
    let t24 = lemma_scan_char(t23, s23, '(', s24);
    assert(t24 =~= crate::numpy::header_open().skip(1));
    assert(s24 =~~= header_prefix_state());
}

/// The scan state after the fixed part of the header before the shape entries.
spec fn header_prefix_state() -> DictModel {
    DictModel {
        in_str: false,
        in_name: false,
        in_data: true,
        in_paren: true,
        name: seq![' ', '\'', 's', 'h', 'a', 'p', 'e', '\''],
        data: seq![' ', '('],
        items: seq![
            (seq!['d', 'e', 's', 'c', 'r'], seq!['\'', '<', 'f', '4', '\'']),
            (
                seq!['f', 'o', 'r', 't', 'r', 'a', 'n', '_', 'o', 'r', 'd', 'e', 'r'],
                seq!['F', 'a', 'l', 's', 'e'],
            ),
        ],
    }
}

/// The value stored for the shape: the entries in parentheses.
pub open spec fn shape_value(shape: Seq<u32>) -> Seq<char> {
    seq!['('] + shape_text(shape) + seq![')']
}

/// The scan state at the end of the header that describes `shape`.
spec fn header_final_state(shape: Seq<u32>) -> DictModel {
    DictModel {
        in_str: false,
        in_name: true,
        in_data: false,
        in_paren: false,
        name: seq![' ', '}'],
        data: seq![],
        items: header_prefix_state().items.push((seq!['s', 'h', 'a', 'p', 'e'], shape_value(shape))),
    }
}

proof fn lemma_header_scan(shape: Seq<u32>)
    requires
        shape.len() >= 1,
    ensures
        dict_scan(dict_start(), header_text(shape).skip(1)) == Some(header_final_state(shape)),
{
    let t = shape_text(shape);
    let close = header_close();
    lemma_header_prefix_scan();
    lemma_shape_text_chars(shape);
    lemma_decimal_digits(shape[0] as nat);
    let s0 = header_prefix_state();
    assert forall|i: int| 0 <= i < t.len() implies plain_for(s0, #[trigger] t[i]) by {
        assert(shape_char(t[i]));
    }
    lemma_dict_scan_plain(s0, t);
    let s1 = plain_result(s0, t);
    let s2 = DictModel { in_paren: false, data: s1.data.push(')'), ..s1 };
    assert(dict_step(s1, ')') =~~= Some(s2));
    let value = shape_value(shape);
    assert(s2.data =~= seq![' '] + value);
    assert(trim_start(s2.data) == trim_start(s2.data.drop_first()));
    assert(s2.data.drop_first() =~= value);
    assert(value[0] == '(');
    assert(trim_start(value) == value);
    assert(value.last() == ')');
    assert(trim_end(value) == value);
    assert(trim(s2.data) =~= value);
    reveal_with_fuel(trim_start, 3);
    reveal_with_fuel(trim_end, 3);
    reveal_with_fuel(strip_quotes_start, 3);
    reveal_with_fuel(strip_quotes_end, 3);
    assert(de_quote_spec(s2.name) =~= Some(seq!['s', 'h', 'a', 'p', 'e']));
    let s3 = DictModel {
        in_name: true,
        in_data: false,
        name: seq![],
        data: seq![],
        items: s2.items.push((seq!['s', 'h', 'a', 'p', 'e'], value)),
        ..s2
    };
    assert(dict_step(s2, ',') =~~= Some(s3));
    let s4 = plain_result(s3, seq![' ', '}']);
    lemma_dict_scan_plain(s3, seq![' ', '}']);
    assert(s4 =~~= header_final_state(shape));
    // chaining the pieces
    let rest = seq![' ', '}'];
    assert(close =~= seq![')', ','] + rest);
    assert(dict_scan(s1, seq![')', ',']) == Some(s3)) by {
        assert(seq![')', ','].drop_first() =~= seq![',']);
        assert(seq![','].drop_first() =~= Seq::<char>::empty());
        assert(dict_scan(s3, Seq::<char>::empty()) == Some(s3));
        assert(dict_scan(s2, seq![',']) == dict_scan(s3, seq![','].drop_first()));
    }
    lemma_dict_scan_append(s1, seq![')', ','], rest);
    lemma_dict_scan_append(s0, t, close);
    lemma_dict_scan_append(dict_start(), header_open().skip(1), t + close);
    assert(header_text(shape).skip(1) =~= header_open().skip(1) + (t + close));
}

/// Reading the parenthesised shape entries gives the shape.
proof fn lemma_tuple_outcome_shape(shape: Seq<u32>)
    requires
        shape.len() >= 1,
    ensures
        tuple_outcome(shape_value(shape)) == TupleScan::Done(shape),
{
    let t = shape_text(shape);
    let v = shape_value(shape);
    assert(v[0] == '(');
    assert(v.last() == ')');
    assert(trim_start(v) == v);
    assert(trim_end(v) == v);
    let open = TupleScan::Running { first: false, current: 0, out: seq![], in_beginning: true };
    assert(seq!['('].drop_first() =~= Seq::<char>::empty());
    assert(tuple_scan(tuple_start(), seq!['(']) == tuple_scan(open, seq!['('].drop_first()));
    lemma_tuple_scan_shape(shape, seq![]);
    let last = TupleScan::Running {
        first: false,
        current: shape.last(),
        out: seq![] + shape.drop_last(),
        in_beginning: false,
    };
    assert(seq![')'].drop_first() =~= Seq::<char>::empty());
    assert(tuple_scan(last, seq![')']) == tuple_scan(tuple_step(last, ')'), seq![')'].drop_first()));
    assert((seq![] + shape.drop_last()).push(shape.last()) =~= shape);
    crate::header::lemma_tuple_scan_append(tuple_start(), seq!['('], t);
    crate::header::lemma_tuple_scan_append(tuple_start(), seq!['('] + t, seq![')']);
}

/// The stored entries of the header: the data type and the shape.
proof fn lemma_header_lookups(shape: Seq<u32>)
    ensures
        lookup(header_final_state(shape).items, shape_key()) == Some(shape_value(shape)),
        lookup(header_final_state(shape).items, descr_key()) == Some(
            seq!['\'', '<', 'f', '4', '\''],
        ),
        de_quote_spec(seq!['\'', '<', 'f', '4', '\'']) == Some(f4_code()),
{
    let items = header_final_state(shape).items;
    assert(items.last().0 =~= shape_key());
    assert(items.drop_last().last().0.len() != descr_key().len());
    assert(items.last().0[0] != descr_key()[0]);
    assert(items.drop_last().drop_last().last().0 =~= descr_key());
    reveal_with_fuel(lookup, 3);
    reveal_with_fuel(trim_start, 2);
    reveal_with_fuel(trim_end, 2);
    reveal_with_fuel(strip_quotes_start, 3);
    reveal_with_fuel(strip_quotes_end, 3);
    assert(de_quote_spec(seq!['\'', '<', 'f', '4', '\'']) =~= Some(f4_code()));
}

/// ASCII text is valid UTF-8 and decodes to itself.
proof fn lemma_ascii_utf8(text: Seq<char>)
    requires
        is_ascii_chars(text),
    ensures
        ascii_bytes(text) == encode_utf8(text),
        valid_utf8(ascii_bytes(text)),
        decode_utf8(ascii_bytes(text)) == text,
{
    vstd::utf8::is_ascii_chars_encode_utf8(text);
    assert(ascii_bytes(text) =~= encode_utf8(text));
    vstd::utf8::encode_utf8_valid_utf8(text);
    vstd::utf8::encode_utf8_decode_utf8(text);
}

proof fn lemma_header_text_ascii(shape: Seq<u32>)
    ensures
        is_ascii_chars(header_text(shape)),
        forall|j: int|
            0 <= j < header_text(shape).len() - 1 ==> #[trigger] header_text(shape)[j] != '}',
        header_text(shape).last() == '}',
        header_text(shape)[0] == '{',
{
    let o = header_open();
    let t = shape_text(shape);
    let c = header_close();
    let h = header_text(shape);
    lemma_shape_text_chars(shape);
    assert forall|j: int| 0 <= j < h.len() implies '\0' <= #[trigger] h[j] <= '\u{7f}' && (j < h.len()
        - 1 ==> h[j] != '}') by {
        if j < o.len() {
            assert(h[j] == o[j]);
        } else if j < o.len() + t.len() {
            assert(h[j] == t[j - o.len()]);
            assert(shape_char(t[j - o.len()]));
        } else {
            assert(h[j] == c[j - o.len() - t.len()]);
        }
    }
}

proof fn lemma_find_close_brace(buf: Seq<u8>, from: int, p: int)
    requires
        0 <= from <= p < buf.len(),
        buf[p] == 125,
        forall|i: int| from <= i < p ==> buf[i] != 125,
    ensures
        find_close_brace(buf, from) == Some(p),
    decreases p - from,
{
    if from < p {
        lemma_find_close_brace(buf, from + 1, p);
    }
}

/// Reading an `.npy` image whose header describes `shape` goes on to read
/// its data.
pub proof fn lemma_npy_header_load(shape: Seq<u32>, data: Seq<u8>, dim: nat)
    requires
        shape.len() == 3 || shape.len() == 4,
    ensures
        npy_load(npy_header(shape) + data, dim) == npy_load_data(data, shape, dim),
{
    let text = header_text(shape);
    let hb = ascii_bytes(text);
    let len_bytes = vstd::bytes::spec_u16_to_le_bytes(#[verifier::truncate] (text.len() as u16));
    let buf = npy_header(shape) + data;
    vstd::bytes::lemma_auto_spec_u16_to_from_le_bytes();
    assert(len_bytes.len() == 2);
    lemma_header_text_ascii(shape);
    lemma_ascii_utf8(text);
    assert(buf =~= npy_magic() + len_bytes + hb + data);
    let end = 10 + text.len() - 1;
    assert(buf.subrange(1, 6) =~= seq![78u8, 85u8, 77u8, 80u8, 89u8]);
    lemma_ascii_utf8(numpy_word());
    assert(ascii_bytes(numpy_word()) =~= seq![78u8, 85u8, 77u8, 80u8, 89u8]);
    assert(buf[10] == hb[0]);
    assert(hb[0] == 123);
    assert forall|i: int| 11 <= i < end implies buf[i] != 125 by {
        assert(buf[i] == hb[i - 10]);
        assert(text[i - 10] != '}');
        assert(text[i - 10] <= '\u{7f}');
    }
    assert(buf[end] == hb[text.len() - 1]);
    lemma_find_close_brace(buf, 11, end);
    assert(buf.subrange(10, end + 1) =~= hb);
    assert(buf.skip(end + 1) =~= data);
    assert(decode_utf8(hb).skip(1) == text.skip(1));
    lemma_header_scan(shape);
    lemma_header_lookups(shape);
    lemma_tuple_outcome_shape(shape);
}

proof fn lemma_cells_bytes_len<T: Vector>(cells: Seq<T>)
    ensures
        cells_bytes(cells).len() == 4 * T::spec_dim() * cells.len(),
    decreases cells.len(),
{
    if cells.len() > 0 {
        lemma_cells_bytes_len(cells.drop_last());
        T::lemma_le_bytes_roundtrip(cells.last());
        assert(4 * T::spec_dim() * cells.drop_last().len() + 4 * T::spec_dim() == 4 * T::spec_dim()
            * cells.len()) by (nonlinear_arith)
            requires
                cells.drop_last().len() + 1 == cells.len(),
        ;
    }
}

/// Value `i` of `cells` stands at its place among the bytes of all values.
proof fn lemma_cells_bytes_value<T: Vector>(cells: Seq<T>, i: int)
    requires
        0 <= i < cells.len(),
    ensures
        value_bytes(cells_bytes(cells), T::spec_dim(), i) == cells[i].spec_to_le_bytes(),
    decreases cells.len(),
{
    let d = T::spec_dim();
    let init = cells.drop_last();
    lemma_cells_bytes_len(init);
    T::lemma_le_bytes_roundtrip(cells.last());
    assert(d * 4 * i == 4 * d * i) by (nonlinear_arith);
    assert(d * 4 * (i + 1) == 4 * d * i + 4 * d) by (nonlinear_arith);
    if i < init.len() {
        lemma_cells_bytes_value(init, i);
        assert(4 * d * i + 4 * d <= 4 * d * init.len()) by (nonlinear_arith)
            requires
                i < init.len(),
        ;
        assert(value_bytes(cells_bytes(cells), d, i) =~= value_bytes(cells_bytes(init), d, i));
    } else {
        assert(value_bytes(cells_bytes(cells), d, i) =~= cells.last().spec_to_le_bytes());
    }
}

/// Stacked layers that each hold `n` values.
spec fn layers_of_size<T: Vector>(ls: Seq<Grid<T>>, n: nat) -> bool {
    forall|l: int| 0 <= l < ls.len() ==> (#[trigger] ls[l]).cells().len() == n
}

proof fn lemma_layers_bytes_len<T: Vector>(ls: Seq<Grid<T>>, n: nat)
    requires
        layers_of_size(ls, n),
    ensures
        layers_bytes(ls).len() == 4 * T::spec_dim() * (ls.len() * n),
    decreases ls.len(),
{
    if ls.len() == 0 {
        assert(4 * T::spec_dim() * (ls.len() * n) == 0) by (nonlinear_arith)
            requires
                ls.len() == 0,
        ;
    } else {
        assert(layers_of_size(ls.drop_last(), n)) by {
            assert forall|l: int| 0 <= l < ls.drop_last().len() implies (
            #[trigger] ls.drop_last()[l]).cells().len() == n by {
                assert(ls.drop_last()[l] == ls[l]);
            }
        }
        assert(ls[ls.len() - 1].cells().len() == n);
        lemma_layers_bytes_len(ls.drop_last(), n);
        lemma_cells_bytes_len(ls.last().cells());
        assert(ls.last().cells().len() == n);
        assert(layers_bytes(ls).len() == layers_bytes(ls.drop_last()).len() + cells_bytes(
            ls.last().cells(),
        ).len());
        assert(4 * T::spec_dim() * (ls.drop_last().len() * n) + 4 * T::spec_dim() * n == 4
            * T::spec_dim() * (ls.len() * n)) by (nonlinear_arith)
            requires
                ls.drop_last().len() + 1 == ls.len(),
        ;
    }
}

/// Value `i` of layer `l` stands at place `l * n + i` among the bytes of all layers.
proof fn lemma_layers_bytes_value<T: Vector>(ls: Seq<Grid<T>>, n: nat, l: int, i: int)
    requires
        layers_of_size(ls, n),
        0 <= l < ls.len(),
        0 <= i < n,
    ensures
        value_bytes(layers_bytes(ls), T::spec_dim(), l * n + i) == ls[l].cells()[i].spec_to_le_bytes(),
    decreases ls.len(),
{
    let d = T::spec_dim();
    let init = ls.drop_last();
    assert(layers_of_size(init, n)) by {
        assert forall|k: int| 0 <= k < init.len() implies (#[trigger] init[k]).cells().len() == n by {
            assert(init[k] == ls[k]);
        }
    }
    assert(ls[ls.len() - 1].cells().len() == n);
    lemma_layers_bytes_len(init, n);
    let a = layers_bytes(init);
    let b = cells_bytes(ls.last().cells());
    assert(layers_bytes(ls) == a + b);
    lemma_cells_bytes_len(ls.last().cells());
    assert(d * 4 * (l * n + i) == 4 * d * (l * n) + 4 * d * i) by (nonlinear_arith);
    assert(0 <= 4 * d * (l * n) && 0 <= 4 * d * i) by (nonlinear_arith)
        requires
            0 <= l,
            0 <= i,
    ;
    assert(d * 4 * (l * n + i + 1) == 4 * d * (l * n) + 4 * d * (i + 1)) by (nonlinear_arith);
    if l < init.len() {
        lemma_layers_bytes_value(init, n, l, i);
        assert(4 * d * (l * n) + 4 * d * (i + 1) <= 4 * d * (init.len() * n)) by (nonlinear_arith)
            requires
                l < init.len(),
                i < n,
        ;
        assert(init[l] == ls[l]);
        assert(a.len() == 4 * d * (init.len() * n));
        assert(d * 4 * (l * n + i + 1) <= a.len());
        assert(0 <= d * 4 * (l * n + i) <= d * 4 * (l * n + i + 1)) by (nonlinear_arith)
            requires
                0 <= l,
                0 <= i,
                0 <= n,
                0 <= d,
        ;
        lemma_subrange_concat_left(a, b, d * 4 * (l * n + i), d * 4 * (l * n + i + 1));
    } else {
        lemma_cells_bytes_value(ls.last().cells(), i);
        assert(l * n == init.len() * n);
        assert(d * 4 * i == 4 * d * i) by (nonlinear_arith);
        assert(d * 4 * (i + 1) == 4 * d * (i + 1)) by (nonlinear_arith);
        assert(4 * d * (l * n) == a.len()) by (nonlinear_arith)
            requires
                a.len() == 4 * d * (init.len() * n),
                l * n == init.len() * n,
        ;
        assert(0 <= 4 * d * i) by (nonlinear_arith)
            requires
                0 <= i,
        ;
        assert(4 * d * (i + 1) <= b.len()) by (nonlinear_arith)
            requires
                i < n,
                b.len() == 4 * d * n,
        ;
        assert(0 <= d * 4 * i <= d * 4 * (i + 1) <= b.len()) by (nonlinear_arith)
            requires
                0 <= i < n,
                0 <= d,
                b.len() == 4 * d * n,
        ;
        lemma_subrange_concat_right(a, b, d * 4 * i, d * 4 * (i + 1));
        assert(a.len() + d * 4 * i == d * 4 * (l * n + i));
        assert(a.len() + d * 4 * (i + 1) == d * 4 * (l * n + i + 1));
    }
}

proof fn lemma_subrange_concat_left(a: Seq<u8>, b: Seq<u8>, s: int, e: int)
    requires
        0 <= s <= e <= a.len(),
    ensures
        (a + b).subrange(s, e) == a.subrange(s, e),
{
    assert((a + b).subrange(s, e) =~= a.subrange(s, e));
}

proof fn lemma_subrange_concat_right(a: Seq<u8>, b: Seq<u8>, s: int, e: int)
    requires
        0 <= s <= e <= b.len(),
    ensures
        (a + b).subrange(a.len() + s, a.len() + e) == b.subrange(s, e),
{
    assert((a + b).subrange(a.len() + s, a.len() + e) =~= b.subrange(s, e));
}

/// Two stacks hold the same grids, layer by layer.
pub open spec fn same_layers<T: Vector>(a: Seq<Grid<T>>, b: Seq<Grid<T>>) -> bool {
    &&& a.len() == b.len()
    &&& forall|l: int|
        0 <= l < a.len() ==> {
            &&& (#[trigger] a[l]).width() == b[l].width()
            &&& a[l].height() == b[l].height()
            &&& a[l].cells() == b[l].cells()
        }
}

/// `g` is what reading `l` gives.
pub open spec fn loads_as<T: Vector>(l: NpyLoad, g: Seq<Grid<T>>) -> bool {
    l matches NpyLoad::Layers { count, size_x, size_y, channels, data } && layers_read(
        g,
        count,
        size_x,
        size_y,
        channels,
        data,
    )
}

/// A stack that saving describes faithfully: well formed layers of one
/// extent, a count and extents that fit in `u32`, and a shape whose byte
/// size fits in `u32` (reading panics on the others).
pub open spec fn saveable_layers<T: Vector>(ls: Seq<Grid<T>>) -> bool {
    &&& forall|l: int| 0 <= l < ls.len() ==> (#[trigger] ls[l]).wf()
    &&& forall|l: int|
        0 <= l < ls.len() ==> (#[trigger] ls[l]).width() == ls[0].width() && ls[l].height()
            == ls[0].height()
    &&& ls.len() <= u32::MAX
    &&& ls.len() > 0 ==> ls[0].width() <= u32::MAX && ls[0].height() <= u32::MAX
    &&& checked_product(layers_shape(ls)) matches Some(p) && 4 * p <= u32::MAX
}

/// The extents read back for a stack: those of its first layer.
pub open spec fn stack_x<T: Vector>(ls: Seq<Grid<T>>) -> nat {
    if ls.len() == 0 {
        0
    } else {
        ls[0].width()
    }
}

pub open spec fn stack_y<T: Vector>(ls: Seq<Grid<T>>) -> nat {
    if ls.len() == 0 {
        0
    } else {
        ls[0].height()
    }
}

/// Values read back from the bytes of layers of one size are the layers'.
proof fn lemma_read_back_layers<T: Vector>(ls: Seq<Grid<T>>, g: Seq<Grid<T>>, x: nat, y: nat)
    requires
        forall|l: int|
            0 <= l < ls.len() ==> (#[trigger] ls[l]).wf() && ls[l].width() == x && ls[l].height()
                == y,
        layers_read(g, ls.len(), x, y, T::spec_dim(), layers_bytes(ls)),
    ensures
        same_layers(g, ls),
{
    let n = x * y;
    assert(layers_of_size(ls, n)) by {
        assert forall|l: int| 0 <= l < ls.len() implies (#[trigger] ls[l]).cells().len() == n by {
            assert(ls[l].wf());
        }
    }
    assert forall|l: int| 0 <= l < g.len() implies {
        &&& (#[trigger] g[l]).width() == ls[l].width()
        &&& g[l].height() == ls[l].height()
        &&& g[l].cells() == ls[l].cells()
    } by {
        assert(ls[l].wf());
        assert(g[l].wf());
        assert forall|i: int| 0 <= i < n implies #[trigger] g[l].cells()[i] == ls[l].cells()[i] by {
            lemma_layers_bytes_value(ls, n, l, i);
            T::lemma_le_bytes_roundtrip(ls[l].cells()[i]);
        }
        assert(g[l].cells() =~= ls[l].cells());
    }
}

/// Reading the `.npy` image of a stack gives layers of the stack's extents
/// read from the stack's bytes.
pub proof fn lemma_stack_npy_load<T: Vector>(ls: Seq<Grid<T>>)
    requires
        saveable_layers(ls),
    ensures
        npy_load(layers_npy(ls), T::spec_dim()) == (NpyLoad::Layers {
            count: ls.len(),
            size_x: stack_x(ls),
            size_y: stack_y(ls),
            channels: T::spec_dim(),
            data: layers_bytes(ls),
        }),
{
    let shape = layers_shape(ls);
    let d = T::spec_dim();
    let x = stack_x(ls);
    let y = stack_y(ls);
    lemma_npy_header_load(shape, layers_bytes(ls), d);
    T::lemma_dim_bounds();
    assert(layers_of_size(ls, x * y)) by {
        assert forall|l: int| 0 <= l < ls.len() implies (#[trigger] ls[l]).cells().len() == x * y by {
            assert(ls[l].wf());
        }
    }
    lemma_layers_bytes_len(ls, x * y);
    assert(d * 4 * (ls.len() * x * y) == 4 * d * (ls.len() * (x * y))) by (nonlinear_arith);
    assert(ls.len() * x * y == ls.len() * (x * y)) by (nonlinear_arith);
}

/// Saving a stack and loading the saved bytes gives the stack back: the
/// bytes that saving writes (an archive whose first entry is the stack's
/// `.npy` image) load without panic, and every result that loading admits
/// holds the same layers, extents and values.
pub proof fn lemma_save_load_roundtrip<T: Vector>(ls: Seq<Grid<T>>, saved: Seq<u8>)
    requires
        saveable_layers(ls),
        saved.len() >= 4,
        saved.take(4) == zip_signature(),
        first_entry(saved) == Some(layers_npy(ls)),
    ensures
        layers_load(saved, T::spec_dim()) is Layers,
        forall|g: Seq<Grid<T>>|
            loads_as(layers_load(saved, T::spec_dim()), g) ==> same_layers(g, ls),
{
    lemma_stack_npy_load(ls);
    assert forall|g: Seq<Grid<T>>| loads_as(layers_load(saved, T::spec_dim()), g) implies same_layers(
        g,
        ls,
    ) by {
        lemma_read_back_layers(ls, g, stack_x(ls), stack_y(ls));
    }
}

/// Loading the `.npy` image of a stack gives the stack back.
pub proof fn lemma_npy_load_roundtrip<T: Vector>(ls: Seq<Grid<T>>)
    requires
        saveable_layers(ls),
    ensures
        npy_load(layers_npy(ls), T::spec_dim()) is Layers,
        forall|g: Seq<Grid<T>>|
            loads_as(npy_load(layers_npy(ls), T::spec_dim()), g) ==> same_layers(g, ls),
{
    lemma_stack_npy_load(ls);
    assert forall|g: Seq<Grid<T>>| loads_as(npy_load(layers_npy(ls), T::spec_dim()), g) implies same_layers(
        g,
        ls,
    ) by {
        lemma_read_back_layers(ls, g, stack_x(ls), stack_y(ls));
    }
}

/// Loading the `.npy` image of one grid, as `numpy_data` writes it, gives
/// that grid back as the one layer.
pub proof fn lemma_numpy_data_roundtrip<T: Vector>(grid: Grid<T>)
    requires
        grid.wf(),
        grid.width() <= u32::MAX,
        grid.height() <= u32::MAX,
        checked_product(
            seq![(grid.width() as usize) as u32, (grid.height() as usize) as u32, T::spec_dim() as u32],
        ) matches Some(p) && 4 * p <= u32::MAX,
    ensures
        ({
            let image = npy_header(
                seq![
                    (grid.width() as usize) as u32,
                    (grid.height() as usize) as u32,
                    T::spec_dim() as u32,
                ],
            ) + cells_bytes(grid.cells());
            &&& npy_load(image, T::spec_dim()) is Layers
            &&& forall|g: Seq<Grid<T>>|
                loads_as(npy_load(image, T::spec_dim()), g) ==> same_layers(g, seq![grid])
        }),
{
    let d = T::spec_dim();
    let x = grid.width();
    let y = grid.height();
    let shape = seq![(x as usize) as u32, (y as usize) as u32, d as u32];
    let data = cells_bytes(grid.cells());
    T::lemma_dim_bounds();
    lemma_npy_header_load(shape, data, d);
    lemma_cells_bytes_len(grid.cells());
    let ls = seq![grid];
    assert(layers_bytes(ls) =~= data) by {
        assert(ls.drop_last() =~= Seq::<Grid<T>>::empty());
        assert(layers_bytes(ls.drop_last()) =~= Seq::<u8>::empty());
        assert(ls.last() == grid);
        assert(layers_bytes(ls) == layers_bytes(ls.drop_last()) + cells_bytes(ls.last().cells()));
    }
    assert(d * 4 * (1 * x * y) == 4 * d * (x * y)) by (nonlinear_arith);
    assert(1 * x * y == x * y) by (nonlinear_arith);
    assert forall|g: Seq<Grid<T>>| loads_as(npy_load(npy_header(shape) + data, d), g) implies same_layers(
        g,
        ls,
    ) by {
        lemma_read_back_layers(ls, g, x, y);
    }
}

} // verus!
