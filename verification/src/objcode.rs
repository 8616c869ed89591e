//! The object artifact: a line-oriented text serialization of constants,
//! function metadata, and the quadruple stream — the contract between the
//! generator and the execution engine. Lines are byte strings; sections
//! are delimited by a `NAME:` header and a matching `END_NAME` footer;
//! comment lines starting with `//` and blank lines are ignored; float
//! constant values travel as their IEEE-754 bit patterns in decimal, so
//! the artifact round-trips exactly.

use vstd::prelude::*;
use crate::quadruples::{Quadruple, MemoryAddresses};
use crate::numtext::{
    int_bytes, dec_bytes, parse_i32_val, parse_u64_val, push_i32_dec, push_u64_dec, parse_i32,
    parse_u64,
};

verus! {

/// One callable function's metadata as carried by the artifact: its name,
/// start instruction index, parameter count, local-variable count, and one
/// address per parameter.
#[derive(Debug)]
pub struct ObjFunction {
    pub name: Vec<u8>,
    pub start_idx: i32,
    pub param_count: usize,
    pub local_var_count: usize,
    pub param_addresses: Vec<i32>,
}

/// The deserialized artifact: the two constant pools as `(value, address)`
/// pairs, the function table, and the instruction stream.
#[derive(Debug)]
pub struct ObjectProgram {
    pub int_constants: Vec<(i32, i32)>,
    pub float_constants: Vec<(u64, i32)>,
    pub functions: Vec<ObjFunction>,
    pub quadruples: Vec<Quadruple>,
}

/// Why loading failed: an unparseable numeric field, a `FUNCTIONS` line
/// with too few fields, one whose parameter-address count does not match
/// its declared parameter count, or a constant whose address lies outside
/// its type's segments.
#[derive(Debug, Clone, Copy, PartialEq, Eq, Structural)]
pub enum LoadError {
    MalformedNumber,
    MalformedFunctionLine,
    ParamCountMismatch,
    BadAddress,
}

/// Fields of a line: the runs between commas, in order; always at least
/// one field.
pub open spec fn fields_of(line: Seq<u8>) -> Seq<Seq<u8>>
    decreases line.len(),
{
    if line.len() == 0 {
        seq![Seq::<u8>::empty()]
    } else if line[0] == 44 {
        seq![Seq::<u8>::empty()] + fields_of(line.drop_first())
    } else {
        let rest = fields_of(line.drop_first());
        seq![seq![line[0]] + rest[0]] + rest.drop_first()
    }
}

/// A line always has at least one field.
pub proof fn lemma_fields_len(line: Seq<u8>)
    ensures
        fields_of(line).len() >= 1,
    decreases line.len(),
{
    if line.len() > 0 {
        lemma_fields_len(line.drop_first());
    }
}

/// Unfolding the splitter at the first comma (or at the line's end when
/// it has none): the first field is the comma-free prefix.
pub proof fn lemma_fields_head(s: Seq<u8>, k: int)
    requires
        0 <= k <= s.len(),
        forall|j: int| 0 <= j < k ==> s[j] != 44,
        k < s.len() ==> s[k] == 44,
    ensures
        k == s.len() ==> fields_of(s) == seq![s],
        k < s.len() ==> fields_of(s) == seq![s.take(k)] + fields_of(s.skip(k + 1)),
    decreases k,
{
    lemma_fields_len(s);
    if k == 0 {
        if s.len() == 0 {
            assert(s =~= Seq::<u8>::empty());
            assert(fields_of(s) =~= seq![s]);
        } else {
            assert(s.take(0) =~= Seq::<u8>::empty());
            assert(s.skip(1) =~= s.drop_first());
            assert(fields_of(s) =~= seq![s.take(0)] + fields_of(s.skip(1)));
        }
    } else {
        let t = s.drop_first();
        lemma_fields_len(t);
        assert forall|j: int| 0 <= j < k - 1 implies t[j] != 44 by {
            assert(t[j] == s[j + 1]);
        }
        assert(k - 1 < t.len() ==> t[k - 1] == 44);
        lemma_fields_head(t, k - 1);
        if k == s.len() {
            assert(fields_of(t) == seq![t]);
            assert(seq![s[0]] + t =~= s);
            assert(fields_of(s) =~= seq![s]);
        } else {
            assert(fields_of(t) == seq![t.take(k - 1)] + fields_of(t.skip(k)));
            assert(seq![s[0]] + t.take(k - 1) =~= s.take(k));
            assert(t.skip(k) =~= s.skip(k + 1));
            assert((seq![t.take(k - 1)] + fields_of(t.skip(k))).drop_first() =~= fields_of(
                s.skip(k + 1),
            ));
            assert(fields_of(s) =~= seq![s.take(k)] + fields_of(s.skip(k + 1)));
        }
    }
}

/// Copies a byte range out of a line.
fn subvec(line: &Vec<u8>, a: usize, b: usize) -> (r: Vec<u8>)
    requires
        a <= b <= line@.len(),
    ensures
        r@ == line@.subrange(a as int, b as int),
{
    let mut out: Vec<u8> = Vec::new();
    let mut j = a;
    while j < b
        invariant
            a <= j <= b <= line@.len(),
            out@ == line@.subrange(a as int, j as int),
        decreases b - j,
    {
        out.push(line[j]);
        proof {
            assert(out@ =~= line@.subrange(a as int, j + 1));
        }
        j = j + 1;
    }
    out
}

/// Splits a line at every comma.
pub fn split_fields(line: &Vec<u8>) -> (r: Vec<Vec<u8>>)
    ensures
        line_views(r@) == fields_of(line@),
        r@.len() >= 1,
{
    let mut out: Vec<Vec<u8>> = Vec::new();
    let n = line.len();
    let mut start: usize = 0;
    let mut i: usize = 0;
    proof {
        lemma_fields_len(line@);
        assert(line@.skip(0) =~= line@);
    }
    while i < n
        invariant
            0 <= start <= i <= n,
            n == line@.len(),
            forall|j: int| start <= j < i ==> line@[j] != 44,
            fields_of(line@) == line_views(out@) + fields_of(
                line@.skip(start as int),
            ),
        decreases n - i,
    {
        if line[i] == 44 {
            let piece = subvec(line, start, i);
            proof {
                let s = line@.skip(start as int);
                assert forall|j: int| 0 <= j < i - start implies s[j] != 44 by {
                    assert(s[j] == line@[start + j]);
                }
                assert(s[i - start] == line@[i as int]);
                lemma_fields_head(s, i - start);
                assert(s.take(i - start) =~= line@.subrange(start as int, i as int));
                assert(s.skip(i - start + 1) =~= line@.skip(i + 1));
            }
            out.push(piece);
            proof {
                assert(line_views(out@) =~= line_views(out@.drop_last()).push(line@.subrange(start as int, i as int)));
                assert(fields_of(line@) =~= line_views(out@) + fields_of(
                    line@.skip(i + 1),
                ));
            }
            start = i + 1;
        }
        i = i + 1;
    }
    let piece = subvec(line, start, n);
    proof {
        let s = line@.skip(start as int);
        assert forall|j: int| 0 <= j < s.len() implies s[j] != 44 by {
            assert(s[j] == line@[start + j]);
        }
        lemma_fields_head(s, s.len() as int);
        assert(s =~= line@.subrange(start as int, n as int));
    }
    out.push(piece);
    proof {
        assert(line_views(out@) =~= line_views(out@.drop_last()).push(line@.subrange(start as int, n as int)));
        assert(fields_of(line@) =~= line_views(out@));
        lemma_fields_len(line@);
    }
    out
}
/// A line to ignore: blank, or a comment starting with `//`.
pub open spec fn is_ignored(l: Seq<u8>) -> bool {
    l.len() == 0 || (l.len() >= 2 && l[0] == 47 && l[1] == 47)
}

/// A section header: a nonempty line ending in `:`.
pub open spec fn is_header(l: Seq<u8>) -> bool {
    l.len() > 0 && l.last() == 58
}

/// A section footer: a line starting with `END_`.
pub open spec fn is_footer(l: Seq<u8>) -> bool {
    l.len() >= 4 && l[0] == 69 && l[1] == 78 && l[2] == 68 && l[3] == 95
}

/// The bytes of `CONSTANTS_INT:`.
pub open spec fn int_header() -> Seq<u8> {
    seq![67u8, 79, 78, 83, 84, 65, 78, 84, 83, 95, 73, 78, 84, 58]
}

/// The bytes of `CONSTANTS_FLOAT:`.
pub open spec fn float_header() -> Seq<u8> {
    seq![67u8, 79, 78, 83, 84, 65, 78, 84, 83, 95, 70, 76, 79, 65, 84, 58]
}

/// The bytes of `FUNCTIONS:`.
pub open spec fn functions_header() -> Seq<u8> {
    seq![70u8, 85, 78, 67, 84, 73, 79, 78, 83, 58]
}

/// The bytes of `QUADRUPLES:`.
pub open spec fn quadruples_header() -> Seq<u8> {
    seq![81u8, 85, 65, 68, 82, 85, 80, 76, 69, 83, 58]
}

/// The section a header line opens: the four known sections, or none.
pub open spec fn section_of(l: Seq<u8>) -> int {
    if l == int_header() {
        1
    } else if l == float_header() {
        2
    } else if l == functions_header() {
        3
    } else if l == quadruples_header() {
        4
    } else {
        0
    }
}

/// Whether an unsigned count field fits a `usize`.
pub open spec fn count_field_ok(f: Seq<u8>) -> bool {
    parse_u64_val(f) is Some && parse_u64_val(f).unwrap() <= usize::MAX
}

/// The parser's accumulated state: the current section, the two constant
/// pools, and the quadruple stream gathered so far.
#[verifier::ext_equal]
pub struct ParseState {
    pub section: int,
    pub int_constants: Seq<(i32, i32)>,
    pub float_constants: Seq<(u64, i32)>,
    pub quadruples: Seq<Quadruple>,
}

/// The parser's starting state: outside every section, nothing gathered.
pub open spec fn parse_init() -> ParseState {
    ParseState {
        section: 0,
        int_constants: Seq::empty(),
        float_constants: Seq::empty(),
        quadruples: Seq::empty(),
    }
}

/// The effect of one line on the parser: the next state, or nothing when
/// the line is rejected. Lines with an unexpected field count inside the
/// constant and quadruple sections are skipped; numeric fields that do not
/// parse, and malformed function lines, reject the artifact.
pub open spec fn line_effect(st: ParseState, l: Seq<u8>) -> Option<ParseState> {
    if is_ignored(l) {
        Some(st)
    } else if is_header(l) {
        Some((ParseState { section: section_of(l), ..st }))
    } else if is_footer(l) {
        Some((ParseState { section: 0, ..st }))
    } else if st.section == 1 {
        let fs = fields_of(l);
        if fs.len() == 2 {
            if parse_i32_val(fs[0]) is Some && parse_i32_val(fs[1]) is Some {
                Some(
                    (ParseState {
                        int_constants: st.int_constants.push(
                            (parse_i32_val(fs[0]).unwrap(), parse_i32_val(fs[1]).unwrap()),
                        ),
                        ..st
                    }),
                )
            } else {
                None
            }
        } else {
            Some(st)
        }
    } else if st.section == 2 {
        let fs = fields_of(l);
        if fs.len() == 2 {
            if parse_u64_val(fs[0]) is Some && parse_i32_val(fs[1]) is Some {
                Some(
                    (ParseState {
                        float_constants: st.float_constants.push(
                            (parse_u64_val(fs[0]).unwrap(), parse_i32_val(fs[1]).unwrap()),
                        ),
                        ..st
                    }),
                )
            } else {
                None
            }
        } else {
            Some(st)
        }
    } else if st.section == 3 {
        let fs = fields_of(l);
        if fs.len() >= 4 {
            if parse_i32_val(fs[1]) is Some && count_field_ok(fs[2]) && count_field_ok(fs[3])
                && fs.len() == 4 + parse_u64_val(fs[2]).unwrap() && (forall|k: int|
                4 <= k < fs.len() ==> parse_i32_val(#[trigger] fs[k]) is Some) {
                Some(st)
            } else {
                None
            }
        } else {
            None
        }
    } else if st.section == 4 {
        let fs = fields_of(l);
        if fs.len() == 4 {
            if parse_i32_val(fs[0]) is Some && parse_i32_val(fs[1]) is Some && parse_i32_val(
                fs[2],
            ) is Some && parse_i32_val(fs[3]) is Some {
                Some(
                    (ParseState {
                        quadruples: st.quadruples.push(
                            (Quadruple {
                                operation: parse_i32_val(fs[0]).unwrap(),
                                arg1: parse_i32_val(fs[1]).unwrap(),
                                arg2: parse_i32_val(fs[2]).unwrap(),
                                result: parse_i32_val(fs[3]).unwrap(),
                            }),
                        ),
                        ..st
                    }),
                )
            } else {
                None
            }
        } else {
            Some(st)
        }
    } else {
        Some(st)
    }
}

/// The parser over a run of lines: folds `line_effect` from the given
/// state.
pub open spec fn parse_effect(lines: Seq<Seq<u8>>, st: ParseState) -> Option<ParseState>
    decreases lines.len(),
{
    if lines.len() == 0 {
        Some(st)
    } else {
        match line_effect(st, lines[0]) {
            Some(st2) => parse_effect(lines.drop_first(), st2),
            None => None,
        }
    }
}

/// Folding over concatenated line runs folds each run in turn.
pub proof fn lemma_parse_effect_concat(a: Seq<Seq<u8>>, b: Seq<Seq<u8>>, st: ParseState)
    ensures
        parse_effect(a + b, st) == match parse_effect(a, st) {
            Some(st2) => parse_effect(b, st2),
            None => None,
        },
    decreases a.len(),
{
    if a.len() == 0 {
        assert(a + b =~= b);
    } else {
        assert((a + b)[0] == a[0]);
        match line_effect(st, a[0]) {
            Some(st2) => {
                assert((a + b).drop_first() =~= a.drop_first() + b);
                lemma_parse_effect_concat(a.drop_first(), b, st2);
            },
            None => {
                assert((a + b).drop_first() =~= a.drop_first() + b);
            },
        }
    }
}

/// Compares two byte vectors.
fn bytes_eq(a: &Vec<u8>, b: &Vec<u8>) -> (r: bool)
    ensures
        r == (a@ == b@),
{
    if a.len() != b.len() {
        return false;
    }
    let n = a.len();
    let mut i: usize = 0;
    while i < n
        invariant
            0 <= i <= n,
            n == a@.len() == b@.len(),
            forall|j: int| 0 <= j < i ==> a@[j] == b@[j],
        decreases n - i,
    {
        if a[i] != b[i] {
            return false;
        }
        i = i + 1;
    }
    proof {
        assert(a@ =~= b@);
    }
    true
}

/// Builds the `CONSTANTS_INT:` header line.
fn int_header_vec() -> (v: Vec<u8>)
    ensures
        v@ == int_header(),
{
    let mut v: Vec<u8> = Vec::new();
    v.push(67);
    v.push(79);
    v.push(78);
    v.push(83);
    v.push(84);
    v.push(65);
    v.push(78);
    v.push(84);
    v.push(83);
    v.push(95);
    v.push(73);
    v.push(78);
    v.push(84);
    v.push(58);
    proof {
        assert(v@ =~= int_header());
    }
    v
}

/// Builds the `CONSTANTS_FLOAT:` header line.
fn float_header_vec() -> (v: Vec<u8>)
    ensures
        v@ == float_header(),
{
    let mut v: Vec<u8> = Vec::new();
    v.push(67);
    v.push(79);
    v.push(78);
    v.push(83);
    v.push(84);
    v.push(65);
    v.push(78);
    v.push(84);
    v.push(83);
    v.push(95);
    v.push(70);
    v.push(76);
    v.push(79);
    v.push(65);
    v.push(84);
    v.push(58);
    proof {
        assert(v@ =~= float_header());
    }
    v
}

/// Builds the `FUNCTIONS:` header line.
fn functions_header_vec() -> (v: Vec<u8>)
    ensures
        v@ == functions_header(),
{
    let mut v: Vec<u8> = Vec::new();
    v.push(70);
    v.push(85);
    v.push(78);
    v.push(67);
    v.push(84);
    v.push(73);
    v.push(79);
    v.push(78);
    v.push(83);
    v.push(58);
    proof {
        assert(v@ =~= functions_header());
    }
    v
}

/// Builds the `QUADRUPLES:` header line.
fn quadruples_header_vec() -> (v: Vec<u8>)
    ensures
        v@ == quadruples_header(),
{
    let mut v: Vec<u8> = Vec::new();
    v.push(81);
    v.push(85);
    v.push(65);
    v.push(68);
    v.push(82);
    v.push(85);
    v.push(80);
    v.push(76);
    v.push(69);
    v.push(83);
    v.push(58);
    proof {
        assert(v@ =~= quadruples_header());
    }
    v
}

/// The footer of a section: `END_` followed by the header without its
/// trailing colon.
pub open spec fn footer_of(header: Seq<u8>) -> Seq<u8> {
    seq![69u8, 78, 68, 95] + header.drop_last()
}

/// Builds a footer line from a header line.
fn footer_vec(header: &Vec<u8>) -> (v: Vec<u8>)
    requires
        header@.len() >= 1,
    ensures
        v@ == footer_of(header@),
{
    let mut v: Vec<u8> = Vec::new();
    v.push(69);
    v.push(78);
    v.push(68);
    v.push(95);
    let n = header.len() - 1;
    let mut i: usize = 0;
    while i < n
        invariant
            0 <= i <= n,
            n == header@.len() - 1,
            v@ == seq![69u8, 78, 68, 95] + header@.subrange(0, i as int),
        decreases n - i,
    {
        v.push(header[i]);
        proof {
            assert(v@ =~= seq![69u8, 78, 68, 95] + header@.subrange(0, i + 1));
        }
        i = i + 1;
    }
    proof {
        assert(header@.subrange(0, n as int) =~= header@.drop_last());
    }
    v
}

/// The serialized line of one integer constant: `value,address`.
pub open spec fn int_const_line(c: (i32, i32)) -> Seq<u8> {
    int_bytes(c.0 as int) + seq![44u8] + int_bytes(c.1 as int)
}

/// The serialized line of one float constant: `bits,address`.
pub open spec fn float_const_line(c: (u64, i32)) -> Seq<u8> {
    dec_bytes(c.0 as nat) + seq![44u8] + int_bytes(c.1 as int)
}

/// The serialized line of one function:
/// `name,start,param_count,local_count` and one more field per parameter
/// address.
pub open spec fn function_line(f: ObjFunction) -> Seq<u8>
    decreases f.param_addresses@.len(),
{
    function_line_prefix(f) + addr_fields(f.param_addresses@)
}

/// The fixed fields of a function line.
pub open spec fn function_line_prefix(f: ObjFunction) -> Seq<u8> {
    f.name@ + seq![44u8] + int_bytes(f.start_idx as int) + seq![44u8] + dec_bytes(
        f.param_count as nat,
    ) + seq![44u8] + dec_bytes(f.local_var_count as nat)
}

/// The `,address` suffix fields of a function line.
pub open spec fn addr_fields(addrs: Seq<i32>) -> Seq<u8>
    decreases addrs.len(),
{
    if addrs.len() == 0 {
        Seq::empty()
    } else {
        seq![44u8] + int_bytes(addrs[0] as int) + addr_fields(addrs.drop_first())
    }
}

/// The serialized line of one quadruple: `operation,arg1,arg2,result`.
pub open spec fn quad_line(q: Quadruple) -> Seq<u8> {
    int_bytes(q.operation as int) + seq![44u8] + int_bytes(q.arg1 as int) + seq![44u8] + int_bytes(
        q.arg2 as int,
    ) + seq![44u8] + int_bytes(q.result as int)
}

/// The lines of the integer constant section.
pub open spec fn int_lines(cs: Seq<(i32, i32)>) -> Seq<Seq<u8>> {
    cs.map_values(|c: (i32, i32)| int_const_line(c))
}

/// The lines of the float constant section.
pub open spec fn float_lines(cs: Seq<(u64, i32)>) -> Seq<Seq<u8>> {
    cs.map_values(|c: (u64, i32)| float_const_line(c))
}

/// The lines of the function section.
pub open spec fn function_lines(fs: Seq<ObjFunction>) -> Seq<Seq<u8>> {
    fs.map_values(|f: ObjFunction| function_line(f))
}

/// The lines of the quadruple section.
pub open spec fn quad_lines(qs: Seq<Quadruple>) -> Seq<Seq<u8>> {
    qs.map_values(|q: Quadruple| quad_line(q))
}

/// The byte views of a list of line vectors.
pub open spec fn line_views(ls: Seq<Vec<u8>>) -> Seq<Seq<u8>> {
    ls.map_values(|l: Vec<u8>| l@)
}

/// The serialized artifact: the four sections in order, each its header,
/// one line per item, and its footer.
pub open spec fn serialized_lines(obj: ObjectProgram) -> Seq<Seq<u8>> {
    seq![int_header()] + int_lines(obj.int_constants@) + seq![
        footer_of(int_header()),
        float_header(),
    ] + float_lines(obj.float_constants@) + seq![
        footer_of(float_header()),
        functions_header(),
    ] + function_lines(obj.functions@) + seq![
        footer_of(functions_header()),
        quadruples_header(),
    ] + quad_lines(obj.quadruples@) + seq![footer_of(quadruples_header())]
}


/// Appending a line appends its view.
pub proof fn lemma_line_views_push(ls: Seq<Vec<u8>>, l: Vec<u8>)
    ensures
        line_views(ls.push(l)) == line_views(ls).push(l@),
{
    assert(line_views(ls.push(l)) =~= line_views(ls).push(l@)) by {
        assert forall|j: int| 0 <= j < ls.len() + 1 implies line_views(ls.push(l))[j]
            == line_views(ls).push(l@)[j] by {
            if j < ls.len() {
                assert(ls.push(l)[j] == ls[j]);
            } else {
                assert(ls.push(l)[j] == l);
            }
        }
    }
}

/// One more integer constant adds its line.
pub proof fn lemma_int_lines_step(cs: Seq<(i32, i32)>, i: int)
    requires
        0 <= i < cs.len(),
    ensures
        int_lines(cs.take(i + 1)) == int_lines(cs.take(i)).push(int_const_line(cs[i])),
{
    assert(cs.take(i + 1) =~= cs.take(i).push(cs[i]));
    assert(int_lines(cs.take(i).push(cs[i]))
        =~= int_lines(cs.take(i)).push(int_const_line(cs[i]))) by {
        assert forall|j: int| 0 <= j < i + 1 implies int_lines(cs.take(i).push(cs[i]))[j]
            == int_lines(cs.take(i)).push(int_const_line(cs[i]))[j] by {
            if j < i {
                assert(cs.take(i).push(cs[i])[j] == cs.take(i)[j]);
            } else {
                assert(cs.take(i).push(cs[i])[j] == cs[i]);
            }
        }
    }
}

/// One more float constant adds its line.
pub proof fn lemma_float_lines_step(cs: Seq<(u64, i32)>, i: int)
    requires
        0 <= i < cs.len(),
    ensures
        float_lines(cs.take(i + 1)) == float_lines(cs.take(i)).push(float_const_line(cs[i])),
{
    assert(cs.take(i + 1) =~= cs.take(i).push(cs[i]));
    assert(float_lines(cs.take(i).push(cs[i]))
        =~= float_lines(cs.take(i)).push(float_const_line(cs[i]))) by {
        assert forall|j: int| 0 <= j < i + 1 implies float_lines(cs.take(i).push(cs[i]))[j]
            == float_lines(cs.take(i)).push(float_const_line(cs[i]))[j] by {
            if j < i {
                assert(cs.take(i).push(cs[i])[j] == cs.take(i)[j]);
            } else {
                assert(cs.take(i).push(cs[i])[j] == cs[i]);
            }
        }
    }
}

/// One more function adds its line.
pub proof fn lemma_function_lines_step(fs: Seq<ObjFunction>, i: int)
    requires
        0 <= i < fs.len(),
    ensures
        function_lines(fs.take(i + 1)) == function_lines(fs.take(i)).push(function_line(fs[i])),
{
    assert(fs.take(i + 1) =~= fs.take(i).push(fs[i]));
    assert(function_lines(fs.take(i).push(fs[i]))
        =~= function_lines(fs.take(i)).push(function_line(fs[i]))) by {
        assert forall|j: int| 0 <= j < i + 1 implies function_lines(fs.take(i).push(fs[i]))[j]
            == function_lines(fs.take(i)).push(function_line(fs[i]))[j] by {
            if j < i {
                assert(fs.take(i).push(fs[i])[j] == fs.take(i)[j]);
            } else {
                assert(fs.take(i).push(fs[i])[j] == fs[i]);
            }
        }
    }
}

/// One more quadruple adds its line.
pub proof fn lemma_quad_lines_step(qs: Seq<Quadruple>, i: int)
    requires
        0 <= i < qs.len(),
    ensures
        quad_lines(qs.take(i + 1)) == quad_lines(qs.take(i)).push(quad_line(qs[i])),
{
    assert(qs.take(i + 1) =~= qs.take(i).push(qs[i]));
    assert(quad_lines(qs.take(i).push(qs[i])) =~= quad_lines(qs.take(i)).push(quad_line(qs[i])))
        by {
        assert forall|j: int| 0 <= j < i + 1 implies quad_lines(qs.take(i).push(qs[i]))[j]
            == quad_lines(qs.take(i)).push(quad_line(qs[i]))[j] by {
            if j < i {
                assert(qs.take(i).push(qs[i])[j] == qs.take(i)[j]);
            } else {
                assert(qs.take(i).push(qs[i])[j] == qs[i]);
            }
        }
    }
}

/// Serializes an artifact to its lines: the four sections in order.
pub fn serialize_object(obj: &ObjectProgram) -> (r: Vec<Vec<u8>>)
    ensures
        line_views(r@) == serialized_lines(*obj),
{
    let mut out: Vec<Vec<u8>> = Vec::new();
    let ih = int_header_vec();
    let ifo = footer_vec(&ih);
    let fh = float_header_vec();
    let ffo = footer_vec(&fh);
    let nh = functions_header_vec();
    let nfo = footer_vec(&nh);
    let qh = quadruples_header_vec();
    let qfo = footer_vec(&qh);
    let ghost prev_ih = out@;
    out.push(ih);
    proof {
        lemma_line_views_push(prev_ih, out@.last());
        assert(prev_ih.push(out@.last()) =~= out@);
        assert(line_views(out@) == line_views(prev_ih).push(out@.last()@));
    }
    let n1 = obj.int_constants.len();
    let mut i: usize = 0;
    while i < n1
        invariant
            0 <= i <= n1,
            n1 == obj.int_constants@.len(),
            line_views(out@) =~= seq![int_header()]
                + int_lines(obj.int_constants@.take(i as int)),
        decreases n1 - i,
    {
        let c = obj.int_constants[i];
        let mut line: Vec<u8> = Vec::new();
        push_i32_dec(&mut line, c.0);
        line.push(44);
        push_i32_dec(&mut line, c.1);
        proof {
            assert(line@ =~= int_const_line(c));
        }
        let ghost prev_line = out@;
        out.push(line);
        proof {
            lemma_line_views_push(prev_line, out@.last());
            assert(prev_line.push(out@.last()) =~= out@);
            assert(line_views(out@) == line_views(prev_line).push(out@.last()@));
            lemma_int_lines_step(obj.int_constants@, i as int);
            assert(line_views(out@) =~= seq![int_header()]
                + int_lines(obj.int_constants@.take(i + 1)));
        }
        i = i + 1;
    }
    proof {
        assert(obj.int_constants@.take(n1 as int) =~= obj.int_constants@);
    }
    let ghost prev_ifo = out@;
    out.push(ifo);
    proof {
        lemma_line_views_push(prev_ifo, out@.last());
        assert(prev_ifo.push(out@.last()) =~= out@);
        assert(line_views(out@) == line_views(prev_ifo).push(out@.last()@));
    }
    let ghost prev_fh = out@;
    out.push(fh);
    proof {
        lemma_line_views_push(prev_fh, out@.last());
        assert(prev_fh.push(out@.last()) =~= out@);
        assert(line_views(out@) == line_views(prev_fh).push(out@.last()@));
    }
    let n2 = obj.float_constants.len();
    let mut i2: usize = 0;
    while i2 < n2
        invariant
            0 <= i2 <= n2,
            n2 == obj.float_constants@.len(),
            line_views(out@) =~= seq![int_header()] + int_lines(obj.int_constants@) + seq![footer_of(int_header()), float_header()] + float_lines(obj.float_constants@.take(i2 as int)),
        decreases n2 - i2,
    {
        let c = obj.float_constants[i2];
        let mut line: Vec<u8> = Vec::new();
        push_u64_dec(&mut line, c.0);
        line.push(44);
        push_i32_dec(&mut line, c.1);
        proof {
            assert(line@ =~= float_const_line(c));
        }
        let ghost prev_line = out@;
        out.push(line);
        proof {
            lemma_line_views_push(prev_line, out@.last());
            assert(prev_line.push(out@.last()) =~= out@);
            assert(line_views(out@) == line_views(prev_line).push(out@.last()@));
            lemma_float_lines_step(obj.float_constants@, i2 as int);
            assert(line_views(out@) =~= seq![int_header()] + int_lines(obj.int_constants@) + seq![
                footer_of(int_header()),
                float_header(),
            ] + float_lines(obj.float_constants@.take(i2 + 1)));
        }
        i2 = i2 + 1;
    }
    proof {
        assert(obj.float_constants@.take(n2 as int) =~= obj.float_constants@);
    }
    let ghost prev_ffo = out@;
    out.push(ffo);
    proof {
        lemma_line_views_push(prev_ffo, out@.last());
        assert(prev_ffo.push(out@.last()) =~= out@);
        assert(line_views(out@) == line_views(prev_ffo).push(out@.last()@));
    }
    out.push(nh);
    let n3 = obj.functions.len();
    let mut i3: usize = 0;
    while i3 < n3
        invariant
            0 <= i3 <= n3,
            n3 == obj.functions@.len(),
            line_views(out@) =~= seq![int_header()] + int_lines(obj.int_constants@) + seq![footer_of(int_header()), float_header()] + float_lines(obj.float_constants@) + seq![footer_of(float_header()), functions_header()] + function_lines(obj.functions@.take(i3 as int)),
        decreases n3 - i3,
    {
        let f = &obj.functions[i3];
        let mut line: Vec<u8> = Vec::new();
        let mut j: usize = 0;
        let nn = f.name.len();
        while j < nn
            invariant
                0 <= j <= nn,
                nn == f.name@.len(),
                line@ == f.name@.subrange(0, j as int),
            decreases nn - j,
        {
            line.push(f.name[j]);
            proof {
                assert(line@ =~= f.name@.subrange(0, j + 1));
            }
            j = j + 1;
        }
        proof {
            assert(line@ =~= f.name@);
        }
        line.push(44);
        push_i32_dec(&mut line, f.start_idx);
        line.push(44);
        push_u64_dec(&mut line, f.param_count as u64);
        line.push(44);
        push_u64_dec(&mut line, f.local_var_count as u64);
        proof {
            assert(line@ =~= function_line_prefix(*f));
        }
        let na = f.param_addresses.len();
        let mut k: usize = 0;
        while k < na
            invariant
                0 <= k <= na,
                na == f.param_addresses@.len(),
                line@ == function_line_prefix(*f) + addr_fields(f.param_addresses@.take(k as int)),
            decreases na - k,
        {
            line.push(44);
            push_i32_dec(&mut line, f.param_addresses[k]);
            proof {
                lemma_addr_fields_push(f.param_addresses@, k as int);
                assert(line@ =~= function_line_prefix(*f) + addr_fields(
                    f.param_addresses@.take(k + 1),
                ));
            }
            k = k + 1;
        }
        proof {
            assert(f.param_addresses@.take(na as int) =~= f.param_addresses@);
            assert(line@ =~= function_line(*f));
        }
        let ghost prev_line = out@;
        out.push(line);
        proof {
            lemma_line_views_push(prev_line, out@.last());
            assert(prev_line.push(out@.last()) =~= out@);
            assert(line_views(out@) == line_views(prev_line).push(out@.last()@));
            lemma_function_lines_step(obj.functions@, i3 as int);
            assert(line_views(out@) =~= seq![int_header()]
                + int_lines(obj.int_constants@) + seq![
                footer_of(int_header()),
                float_header(),
            ] + float_lines(obj.float_constants@) + seq![
                footer_of(float_header()),
                functions_header(),
            ] + function_lines(obj.functions@.take(i3 + 1)));
        }
        i3 = i3 + 1;
    }
    proof {
        assert(obj.functions@.take(n3 as int) =~= obj.functions@);
    }
    let ghost prev_nfo = out@;
    out.push(nfo);
    proof {
        lemma_line_views_push(prev_nfo, out@.last());
        assert(prev_nfo.push(out@.last()) =~= out@);
        assert(line_views(out@) == line_views(prev_nfo).push(out@.last()@));
    }
    let ghost prev_qh = out@;
    out.push(qh);
    proof {
        lemma_line_views_push(prev_qh, out@.last());
        assert(prev_qh.push(out@.last()) =~= out@);
        assert(line_views(out@) == line_views(prev_qh).push(out@.last()@));
    }
    let n4 = obj.quadruples.len();
    let mut i4: usize = 0;
    while i4 < n4
        invariant
            0 <= i4 <= n4,
            n4 == obj.quadruples@.len(),
            line_views(out@) =~= seq![int_header()] + int_lines(obj.int_constants@) + seq![footer_of(int_header()), float_header()] + float_lines(obj.float_constants@) + seq![footer_of(float_header()), functions_header()] + function_lines(obj.functions@) + seq![footer_of(functions_header()), quadruples_header()] + quad_lines(obj.quadruples@.take(i4 as int)),
        decreases n4 - i4,
    {
        let q = obj.quadruples[i4];
        let mut line: Vec<u8> = Vec::new();
        push_i32_dec(&mut line, q.operation);
        line.push(44);
        push_i32_dec(&mut line, q.arg1);
        line.push(44);
        push_i32_dec(&mut line, q.arg2);
        line.push(44);
        push_i32_dec(&mut line, q.result);
        proof {
            assert(line@ =~= quad_line(q));
        }
        let ghost prev_line = out@;
        out.push(line);
        proof {
            lemma_line_views_push(prev_line, out@.last());
            assert(prev_line.push(out@.last()) =~= out@);
            assert(line_views(out@) == line_views(prev_line).push(out@.last()@));
            lemma_quad_lines_step(obj.quadruples@, i4 as int);
            assert(line_views(out@) =~= seq![int_header()]
                + int_lines(obj.int_constants@) + seq![
                footer_of(int_header()),
                float_header(),
            ] + float_lines(obj.float_constants@) + seq![
                footer_of(float_header()),
                functions_header(),
            ] + function_lines(obj.functions@) + seq![
                footer_of(functions_header()),
                quadruples_header(),
            ] + quad_lines(obj.quadruples@.take(i4 + 1)));
        }
        i4 = i4 + 1;
    }
    proof {
        assert(obj.quadruples@.take(n4 as int) =~= obj.quadruples@);
    }
    let ghost prev_qfo = out@;
    out.push(qfo);
    proof {
        lemma_line_views_push(prev_qfo, out@.last());
        assert(prev_qfo.push(out@.last()) =~= out@);
        assert(line_views(out@) == line_views(prev_qfo).push(out@.last()@));
    }
    proof {
        assert(line_views(out@) =~= serialized_lines(*obj));
    }
    out
}

/// One more address field extends the suffix.
pub proof fn lemma_addr_fields_push(addrs: Seq<i32>, k: int)
    requires
        0 <= k < addrs.len(),
    ensures
        addr_fields(addrs.take(k + 1)) == addr_fields(addrs.take(k)) + seq![44u8] + int_bytes(
            addrs[k] as int,
        ),
    decreases k,
{
    if k == 0 {
        assert(addrs.take(1).drop_first() =~= Seq::<i32>::empty());
        assert(addrs.take(0) =~= Seq::<i32>::empty());
        assert(addrs.take(1)[0] == addrs[0]);
        assert(addr_fields(addrs.take(1)) =~= addr_fields(addrs.take(0)) + seq![44u8] + int_bytes(
            addrs[0] as int,
        ));
    } else {
        lemma_addr_fields_push(addrs.drop_first(), k - 1);
        assert(addrs.take(k + 1).drop_first() =~= addrs.drop_first().take(k));
        assert(addrs.take(k).drop_first() =~= addrs.drop_first().take(k - 1));
        assert(addrs.take(k + 1)[0] == addrs[0]);
        assert(addrs.take(k)[0] == addrs[0]);
        assert(addrs.drop_first()[k - 1] == addrs[k]);
        assert(addr_fields(addrs.take(k + 1)) =~= addr_fields(addrs.take(k)) + seq![44u8]
            + int_bytes(addrs[k] as int));
    }
}

/// Parses artifact lines back into an artifact. The quadruple stream and
/// the success of the whole parse are specified exactly by `parse_effect`;
/// the constant pools and the function table are read for the engine.
pub fn parse_object(lines: &Vec<Vec<u8>>) -> (r: Result<ObjectProgram, LoadError>)
    ensures
        match r {
            Ok(obj) => parse_effect(line_views(lines@), parse_init()) is Some && {
                let st = parse_effect(line_views(lines@), parse_init()).unwrap();
                &&& obj.int_constants@ == st.int_constants
                &&& obj.float_constants@ == st.float_constants
                &&& obj.quadruples@ == st.quadruples
            },
            Err(_) => parse_effect(line_views(lines@), parse_init()) is None,
        },
{
    let ghost lviews = line_views(lines@);
    let ih = int_header_vec();
    let fh = float_header_vec();
    let nh = functions_header_vec();
    let qh = quadruples_header_vec();
    let mut ints: Vec<(i32, i32)> = Vec::new();
    let mut floats: Vec<(u64, i32)> = Vec::new();
    let mut funcs: Vec<ObjFunction> = Vec::new();
    let mut quads: Vec<Quadruple> = Vec::new();
    let mut section: i32 = 0;
    let n = lines.len();
    let mut i: usize = 0;
    proof {
        assert(lviews.take(0) =~= Seq::<Seq<u8>>::empty());
    }
    while i < n
        invariant
            0 <= i <= n,
            n == lines@.len(),
            lviews == line_views(lines@),
            ih@ == int_header(),
            fh@ == float_header(),
            nh@ == functions_header(),
            qh@ == quadruples_header(),
            parse_effect(lviews.take(i as int), parse_init()) == Some(
                (ParseState {
                    section: section as int,
                    int_constants: ints@,
                    float_constants: floats@,
                    quadruples: quads@,
                }),
            ),
        decreases n - i,
    {
        let line = &lines[i];
        let ghost st0 = ParseState {
            section: section as int,
            int_constants: ints@,
            float_constants: floats@,
            quadruples: quads@,
        };
        proof {
            lemma_parse_take_step(lviews, i as int, parse_init());
            assert(lviews[i as int] == line@);
        }
        let ll = line.len();
        let ignored = ll == 0 || (ll >= 2 && line[0] == 47 && line[1] == 47);
        if ignored {
            proof {
                assert(is_ignored(line@));
                assert(line_effect(st0, line@) == Some(st0));
            }
            i = i + 1;
            continue ;
        }
        if line[ll - 1] == 58 {
            if bytes_eq(line, &ih) {
                section = 1;
            } else if bytes_eq(line, &fh) {
                section = 2;
            } else if bytes_eq(line, &nh) {
                section = 3;
            } else if bytes_eq(line, &qh) {
                section = 4;
            } else {
                section = 0;
            }
            proof {
                assert(!is_ignored(line@));
                assert(is_header(line@));
                assert(section as int == section_of(line@));
                assert(line_effect(st0, line@) == Some(
                    (ParseState { section: section as int, ..st0 }),
                ));
            }
            i = i + 1;
            continue ;
        }
        if ll >= 4 && line[0] == 69 && line[1] == 78 && line[2] == 68 && line[3] == 95 {
            section = 0;
            proof {
                assert(!is_ignored(line@));
                assert(!is_header(line@));
                assert(is_footer(line@));
                assert(line_effect(st0, line@) == Some((ParseState { section: 0, ..st0 })));
            }
            i = i + 1;
            continue ;
        }
        if section == 1 {
            let fs = split_fields(line);
            proof {
                assert(line_views(fs@)[0] == fs@[0]@);
                if fs@.len() == 2 {
                    assert(line_views(fs@)[1] == fs@[1]@);
                }
            }
            if fs.len() == 2 {
                let v = match parse_i32(fs[0].as_slice()) {
                    Some(v) => v,
                    None => {
                        proof {
                            assert(line_effect(st0, line@) is None);
                            lemma_parse_fail_extends(lviews, i as int);
                        }
                        return Err(LoadError::MalformedNumber);
                    },
                };
                let a = match parse_i32(fs[1].as_slice()) {
                    Some(v) => v,
                    None => {
                        proof {
                            assert(line_effect(st0, line@) is None);
                            lemma_parse_fail_extends(lviews, i as int);
                        }
                        return Err(LoadError::MalformedNumber);
                    },
                };
                ints.push((v, a));
                proof {
                    assert(line_effect(st0, line@) == Some(
                        (ParseState { int_constants: st0.int_constants.push((v, a)), ..st0 }),
                    ));
                }
            }
        } else if section == 2 {
            let fs = split_fields(line);
            proof {
                assert(line_views(fs@)[0] == fs@[0]@);
                if fs@.len() == 2 {
                    assert(line_views(fs@)[1] == fs@[1]@);
                }
            }
            if fs.len() == 2 {
                let v = match parse_u64(fs[0].as_slice()) {
                    Some(v) => v,
                    None => {
                        proof {
                            assert(line_effect(st0, line@) is None);
                            lemma_parse_fail_extends(lviews, i as int);
                        }
                        return Err(LoadError::MalformedNumber);
                    },
                };
                let a = match parse_i32(fs[1].as_slice()) {
                    Some(v) => v,
                    None => {
                        proof {
                            assert(line_effect(st0, line@) is None);
                            lemma_parse_fail_extends(lviews, i as int);
                        }
                        return Err(LoadError::MalformedNumber);
                    },
                };
                floats.push((v, a));
                proof {
                    assert(line_effect(st0, line@) == Some(
                        (ParseState { float_constants: st0.float_constants.push((v, a)), ..st0 }),
                    ));
                }
            }
        } else if section == 3 {
            let fs = split_fields(line);
            proof {
                assert forall|k: int|
                    0 <= k < fs@.len() implies line_views(fs@)[k] == (
                #[trigger] fs@[k])@ by {}
            }
            if fs.len() < 4 {
                proof {
                    assert(line_effect(st0, line@) is None);
                    lemma_parse_fail_extends(lviews, i as int);
                }
                return Err(LoadError::MalformedFunctionLine);
            }
            let start = match parse_i32(fs[1].as_slice()) {
                Some(v) => v,
                None => {
                    proof {
                        assert(line_effect(st0, line@) is None);
                        lemma_parse_fail_extends(lviews, i as int);
                    }
                    return Err(LoadError::MalformedNumber);
                },
            };
            let pcount64 = match parse_u64(fs[2].as_slice()) {
                Some(v) => v,
                None => {
                    proof {
                        assert(line_effect(st0, line@) is None);
                        lemma_parse_fail_extends(lviews, i as int);
                    }
                    return Err(LoadError::MalformedNumber);
                },
            };
            let lcount64 = match parse_u64(fs[3].as_slice()) {
                Some(v) => v,
                None => {
                    proof {
                        assert(line_effect(st0, line@) is None);
                        lemma_parse_fail_extends(lviews, i as int);
                    }
                    return Err(LoadError::MalformedNumber);
                },
            };
            if pcount64 > (usize::MAX as u64) || lcount64 > (usize::MAX as u64) {
                proof {
                    assert(line_effect(st0, line@) is None);
                    lemma_parse_fail_extends(lviews, i as int);
                }
                return Err(LoadError::MalformedNumber);
            }
            let pcount = pcount64 as usize;
            let lcount = lcount64 as usize;
            if fs.len() - 4 != pcount {
                proof {
                    assert(line_effect(st0, line@) is None);
                    lemma_parse_fail_extends(lviews, i as int);
                }
                return Err(LoadError::ParamCountMismatch);
            }
            let mut addrs: Vec<i32> = Vec::new();
            let mut bad_addr = false;
            let mut k: usize = 4;
            while k < fs.len()
                invariant
                    4 <= k <= fs@.len(),
                    !bad_addr ==> addrs@.len() == k - 4,
                    !bad_addr ==> forall|j: int|
                        4 <= j < k ==> parse_i32_val((#[trigger] fs@[j])@) is Some,
                    bad_addr ==> exists|j: int|
                        4 <= j < fs@.len() && parse_i32_val((#[trigger] fs@[j])@) is None,
                decreases fs@.len() - k,
            {
                if !bad_addr {
                    match parse_i32(fs[k].as_slice()) {
                        Some(a) => {
                            addrs.push(a);
                        },
                        None => {
                            bad_addr = true;
                        },
                    }
                }
                k = k + 1;
            }
            if bad_addr {
                proof {
                    let j = choose|j: int|
                        4 <= j < fs@.len() && parse_i32_val((#[trigger] fs@[j])@) is None;
                    assert(line_views(fs@)[j] == fs@[j]@);
                    assert(line_effect(st0, line@) is None);
                    lemma_parse_fail_extends(lviews, i as int);
                }
                return Err(LoadError::MalformedNumber);
            }
            let name = fs[0].clone();
            funcs.push(
                ObjFunction {
                    name,
                    start_idx: start,
                    param_count: pcount,
                    local_var_count: lcount,
                    param_addresses: addrs,
                },
            );
            proof {
                assert(line_effect(st0, line@) == Some(st0));
            }
        } else if section == 4 {
            let fs = split_fields(line);
            proof {
                assert forall|k: int|
                    0 <= k < fs@.len() implies line_views(fs@)[k] == (
                #[trigger] fs@[k])@ by {}
            }
            if fs.len() == 4 {
                let op = match parse_i32(fs[0].as_slice()) {
                    Some(v) => v,
                    None => {
                        proof {
                            assert(line_effect(st0, line@) is None);
                            lemma_parse_fail_extends(lviews, i as int);
                        }
                        return Err(LoadError::MalformedNumber);
                    },
                };
                let a1 = match parse_i32(fs[1].as_slice()) {
                    Some(v) => v,
                    None => {
                        proof {
                            assert(line_effect(st0, line@) is None);
                            lemma_parse_fail_extends(lviews, i as int);
                        }
                        return Err(LoadError::MalformedNumber);
                    },
                };
                let a2 = match parse_i32(fs[2].as_slice()) {
                    Some(v) => v,
                    None => {
                        proof {
                            assert(line_effect(st0, line@) is None);
                            lemma_parse_fail_extends(lviews, i as int);
                        }
                        return Err(LoadError::MalformedNumber);
                    },
                };
                let res = match parse_i32(fs[3].as_slice()) {
                    Some(v) => v,
                    None => {
                        proof {
                            assert(line_effect(st0, line@) is None);
                            lemma_parse_fail_extends(lviews, i as int);
                        }
                        return Err(LoadError::MalformedNumber);
                    },
                };
                quads.push(Quadruple { operation: op, arg1: a1, arg2: a2, result: res });
                proof {
                    assert(line_effect(st0, line@) == Some(
                        (ParseState {
                            quadruples: st0.quadruples.push(
                                (Quadruple { operation: op, arg1: a1, arg2: a2, result: res }),
                            ),
                            ..st0
                        }),
                    ));
                }
            }
        }
        i = i + 1;
    }
    proof {
        assert(lviews.take(n as int) =~= lviews);
    }
    Ok(
        ObjectProgram {
            int_constants: ints,
            float_constants: floats,
            functions: funcs,
            quadruples: quads,
        },
    )
}

/// A failure while folding a prefix fails the whole artifact.
pub proof fn lemma_parse_fail_extends(lines: Seq<Seq<u8>>, i: int)
    requires
        0 <= i < lines.len(),
        parse_effect(lines.take(i + 1), parse_init()) is None,
    ensures
        parse_effect(lines, parse_init()) is None,
{
    lemma_parse_effect_concat(lines.take(i + 1), lines.skip(i + 1), parse_init());
    assert(lines.take(i + 1) + lines.skip(i + 1) =~= lines);
}

/// Folding one more line applies its effect.
pub proof fn lemma_parse_take_step(lines: Seq<Seq<u8>>, i: int, st: ParseState)
    requires
        0 <= i < lines.len(),
    ensures
        parse_effect(lines.take(i + 1), st) == match parse_effect(lines.take(i), st) {
            Some(st2) => line_effect(st2, lines[i]),
            None => None,
        },
{
    assert(lines.take(i + 1) =~= lines.take(i) + seq![lines[i]]);
    lemma_parse_effect_concat(lines.take(i), seq![lines[i]], st);
    let single = seq![lines[i]];
    assert(single.drop_first() =~= Seq::<Seq<u8>>::empty());
    assert(single[0] == lines[i]);
    match parse_effect(lines.take(i), st) {
        Some(st2) => {
            match line_effect(st2, lines[i]) {
                Some(st3) => {
                    assert(parse_effect(single, st2) == parse_effect(single.drop_first(), st3));
                    assert(parse_effect(Seq::<Seq<u8>>::empty(), st3) == Some(st3));
                },
                None => {},
            }
        },
        None => {},
    }
}

/// A byte an identifier may contain: letters, digits, underscore.
pub open spec fn ident_byte(b: u8) -> bool {
    b == 95 || (48 <= b <= 57) || (65 <= b <= 90) || (97 <= b <= 122)
}

/// A function entry the artifact can carry faithfully: a nonempty
/// identifier name that does not begin like a section footer, and one
/// address per declared parameter.
pub open spec fn obj_fn_wf(f: ObjFunction) -> bool {
    &&& f.name@.len() >= 1
    &&& forall|k: int| 0 <= k < f.name@.len() ==> ident_byte(#[trigger] f.name@[k])
    &&& !(f.name@.len() >= 4 && f.name@[0] == 69 && f.name@[1] == 78 && f.name@[2] == 68
        && f.name@[3] == 95)
    &&& f.param_addresses@.len() == f.param_count
}

/// An artifact the serialization carries faithfully.
pub open spec fn obj_wf(obj: ObjectProgram) -> bool {
    forall|k: int| 0 <= k < obj.functions@.len() ==> obj_fn_wf(#[trigger] obj.functions@[k])
}

/// No byte of a rendered integer is a comma, a slash, a colon, or `E`; the
/// first is a digit or the minus sign and the last is a digit.
pub proof fn lemma_int_bytes_facts(i: int)
    ensures
        int_bytes(i).len() >= 1,
        forall|k: int|
            0 <= k < int_bytes(i).len() ==> (#[trigger] int_bytes(i)[k] == 45 || 48 <= int_bytes(
                i,
            )[k] <= 57),
        48 <= int_bytes(i).last() <= 57,
{
    if i < 0 {
        crate::numtext::lemma_dec_bytes_digits((-i) as nat);
        assert forall|k: int| 0 <= k < int_bytes(i).len() implies (#[trigger] int_bytes(i)[k] == 45
            || 48 <= int_bytes(i)[k] <= 57) by {
            if k > 0 {
                assert(int_bytes(i)[k] == dec_bytes((-i) as nat)[k - 1]);
            }
        }
        assert(int_bytes(i).last() == dec_bytes((-i) as nat).last());
    } else {
        crate::numtext::lemma_dec_bytes_digits(i as nat);
        assert(int_bytes(i) == dec_bytes(i as nat));
    }
}

/// A comma-free field followed by a comma starts the field list.
pub proof fn lemma_field_prepend(x: Seq<u8>, rest: Seq<u8>)
    requires
        forall|k: int| 0 <= k < x.len() ==> x[k] != 44,
    ensures
        fields_of(x + seq![44u8] + rest) == seq![x] + fields_of(rest),
{
    let s = x + seq![44u8] + rest;
    assert forall|j: int| 0 <= j < x.len() implies s[j] != 44 by {
        assert(s[j] == x[j]);
    }
    assert(s[x.len() as int] == 44);
    lemma_fields_head(s, x.len() as int);
    assert(s.take(x.len() as int) =~= x);
    assert(s.skip(x.len() as int + 1) =~= rest);
}

/// A comma-free line is one field.
pub proof fn lemma_single_field(x: Seq<u8>)
    requires
        forall|k: int| 0 <= k < x.len() ==> x[k] != 44,
    ensures
        fields_of(x) == seq![x],
{
    lemma_fields_head(x, x.len() as int);
}

/// The rendered address suffix fields.
pub open spec fn addr_field_seqs(vals: Seq<i32>) -> Seq<Seq<u8>> {
    vals.map_values(|a: i32| int_bytes(a as int))
}

/// A comma-free field followed by rendered address fields splits into the
/// field and one field per address.
pub proof fn lemma_tail_fields(first: Seq<u8>, vals: Seq<i32>)
    requires
        forall|k: int| 0 <= k < first.len() ==> first[k] != 44,
    ensures
        fields_of(first + addr_fields(vals)) == seq![first] + addr_field_seqs(vals),
    decreases vals.len(),
{
    if vals.len() == 0 {
        assert(first + addr_fields(vals) =~= first);
        lemma_single_field(first);
        assert(addr_field_seqs(vals) =~= Seq::<Seq<u8>>::empty());
        assert(seq![first] + addr_field_seqs(vals) =~= seq![first]);
    } else {
        lemma_int_bytes_facts(vals[0] as int);
        lemma_tail_fields(int_bytes(vals[0] as int), vals.drop_first());
        assert(first + addr_fields(vals) =~= first + seq![44u8] + (int_bytes(vals[0] as int)
            + addr_fields(vals.drop_first())));
        lemma_field_prepend(
            first,
            int_bytes(vals[0] as int) + addr_fields(vals.drop_first()),
        );
        assert(addr_field_seqs(vals) =~= seq![int_bytes(vals[0] as int)] + addr_field_seqs(
            vals.drop_first(),
        ));
        assert(fields_of(first + addr_fields(vals)) =~= seq![first] + addr_field_seqs(vals));
    }
}

/// An integer constant's line keeps the section and stream.
pub proof fn lemma_int_line_effect(st: ParseState, c: (i32, i32))
    requires
        st.section == 1,
    ensures
        line_effect(st, int_const_line(c)) == Some(
            (ParseState { int_constants: st.int_constants.push(c), ..st }),
        ),
{
    let l = int_const_line(c);
    lemma_int_bytes_facts(c.0 as int);
    lemma_int_bytes_facts(c.1 as int);
    assert(l[0] == int_bytes(c.0 as int)[0]);
    assert(l.last() == int_bytes(c.1 as int).last());
    assert(!is_ignored(l));
    assert(!is_header(l));
    assert(!is_footer(l)) by {
        assert(l[0] == int_bytes(c.0 as int)[0]);
    }
    assert(l =~= int_bytes(c.0 as int) + seq![44u8] + int_bytes(c.1 as int));
    lemma_field_prepend(int_bytes(c.0 as int), int_bytes(c.1 as int));
    lemma_single_field(int_bytes(c.1 as int));
    let fs = fields_of(l);
    assert(fs == seq![int_bytes(c.0 as int)] + seq![int_bytes(c.1 as int)]);
    assert(fs.len() == 2);
    assert(fs[0] == int_bytes(c.0 as int));
    assert(fs[1] == int_bytes(c.1 as int));
    crate::numtext::lemma_i32_round_trip(c.0);
    crate::numtext::lemma_i32_round_trip(c.1);
}

/// A float constant's line keeps the section and stream.
pub proof fn lemma_float_line_effect(st: ParseState, c: (u64, i32))
    requires
        st.section == 2,
    ensures
        line_effect(st, float_const_line(c)) == Some(
            (ParseState { float_constants: st.float_constants.push(c), ..st }),
        ),
{
    let l = float_const_line(c);
    crate::numtext::lemma_dec_bytes_digits(c.0 as nat);
    lemma_int_bytes_facts(c.1 as int);
    assert(l[0] == dec_bytes(c.0 as nat)[0]);
    assert(l.last() == int_bytes(c.1 as int).last());
    assert(!is_ignored(l));
    assert(!is_header(l));
    assert(!is_footer(l));
    assert(l =~= dec_bytes(c.0 as nat) + seq![44u8] + int_bytes(c.1 as int));
    lemma_field_prepend(dec_bytes(c.0 as nat), int_bytes(c.1 as int));
    lemma_single_field(int_bytes(c.1 as int));
    let fs = fields_of(l);
    assert(fs == seq![dec_bytes(c.0 as nat)] + seq![int_bytes(c.1 as int)]);
    assert(fs[0] == dec_bytes(c.0 as nat));
    assert(fs[1] == int_bytes(c.1 as int));
    crate::numtext::lemma_u64_round_trip(c.0);
    crate::numtext::lemma_i32_round_trip(c.1);
}

/// A quadruple's line appends exactly that quadruple.
pub proof fn lemma_quad_line_effect(st: ParseState, x: Quadruple)
    requires
        st.section == 4,
    ensures
        line_effect(st, quad_line(x)) == Some(
            (ParseState { quadruples: st.quadruples.push(x), ..st }),
        ),
{
    let l = quad_line(x);
    lemma_int_bytes_facts(x.operation as int);
    lemma_int_bytes_facts(x.arg1 as int);
    lemma_int_bytes_facts(x.arg2 as int);
    lemma_int_bytes_facts(x.result as int);
    assert(l[0] == int_bytes(x.operation as int)[0]);
    assert(l.last() == int_bytes(x.result as int).last());
    assert(!is_ignored(l));
    assert(!is_header(l));
    assert(!is_footer(l));
    let f2 = int_bytes(x.arg2 as int) + seq![44u8] + int_bytes(x.result as int);
    let f1 = int_bytes(x.arg1 as int) + seq![44u8] + f2;
    assert(l =~= int_bytes(x.operation as int) + seq![44u8] + f1);
    lemma_field_prepend(int_bytes(x.operation as int), f1);
    assert(f1 =~= int_bytes(x.arg1 as int) + seq![44u8] + f2);
    lemma_field_prepend(int_bytes(x.arg1 as int), f2);
    lemma_field_prepend(int_bytes(x.arg2 as int), int_bytes(x.result as int));
    lemma_single_field(int_bytes(x.result as int));
    let fs = fields_of(l);
    assert(fs =~= seq![
        int_bytes(x.operation as int),
        int_bytes(x.arg1 as int),
        int_bytes(x.arg2 as int),
        int_bytes(x.result as int),
    ]);
    crate::numtext::lemma_i32_round_trip(x.operation);
    crate::numtext::lemma_i32_round_trip(x.arg1);
    crate::numtext::lemma_i32_round_trip(x.arg2);
    crate::numtext::lemma_i32_round_trip(x.result);
    assert(parse_i32_val(fs[0]) == Some(x.operation));
    assert(parse_i32_val(fs[1]) == Some(x.arg1));
    assert(parse_i32_val(fs[2]) == Some(x.arg2));
    assert(parse_i32_val(fs[3]) == Some(x.result));
}

/// A function's line keeps the section and stream.
pub proof fn lemma_function_line_effect(st: ParseState, f: ObjFunction)
    requires
        st.section == 3,
        obj_fn_wf(f),
    ensures
        line_effect(st, function_line(f)) == Some(st),
{
    let l = function_line(f);
    lemma_int_bytes_facts(f.start_idx as int);
    crate::numtext::lemma_dec_bytes_digits(f.param_count as nat);
    crate::numtext::lemma_dec_bytes_digits(f.local_var_count as nat);
    assert(l[0] == f.name@[0]);
    assert(!is_ignored(l));
    // The line ends in a digit: the local count when there are no
    // parameters, the last parameter address otherwise.
    if f.param_addresses@.len() == 0 {
        assert(addr_fields(f.param_addresses@) =~= Seq::<u8>::empty());
        assert(l =~= function_line_prefix(f));
        assert(l.last() == dec_bytes(f.local_var_count as nat).last());
    } else {
        lemma_addr_fields_push(
            f.param_addresses@,
            f.param_addresses@.len() - 1,
        );
        assert(f.param_addresses@.take(f.param_addresses@.len() as int) =~= f.param_addresses@);
        let lastaddr = f.param_addresses@.last();
        lemma_int_bytes_facts(lastaddr as int);
        assert(l =~= function_line_prefix(f) + addr_fields(
            f.param_addresses@.take(f.param_addresses@.len() - 1),
        ) + seq![44u8] + int_bytes(lastaddr as int));
        assert(l.last() == int_bytes(lastaddr as int).last());
    }
    assert(!is_header(l));
    assert(!is_footer(l)) by {
        if l.len() >= 4 && l[0] == 69 && l[1] == 78 && l[2] == 68 && l[3] == 95 {
            if f.name@.len() >= 4 {
                assert(l[0] == f.name@[0]);
                assert(l[1] == f.name@[1]);
                assert(l[2] == f.name@[2]);
                assert(l[3] == f.name@[3]);
            } else if f.name@.len() == 1 {
                assert(l[1] == 44);
            } else if f.name@.len() == 2 {
                assert(l[2] == 44);
            } else {
                assert(l[3] == 44);
            }
        }
    }
    let tail3 = dec_bytes(f.local_var_count as nat) + addr_fields(f.param_addresses@);
    let tail2 = dec_bytes(f.param_count as nat) + seq![44u8] + tail3;
    let tail1 = int_bytes(f.start_idx as int) + seq![44u8] + tail2;
    assert(l =~= f.name@ + seq![44u8] + tail1);
    lemma_field_prepend(f.name@, tail1);
    assert(tail1 =~= int_bytes(f.start_idx as int) + seq![44u8] + tail2);
    lemma_field_prepend(int_bytes(f.start_idx as int), tail2);
    lemma_field_prepend(dec_bytes(f.param_count as nat), tail3);
    lemma_tail_fields(dec_bytes(f.local_var_count as nat), f.param_addresses@);
    let fs = fields_of(l);
    assert(fs =~= seq![
        f.name@,
        int_bytes(f.start_idx as int),
        dec_bytes(f.param_count as nat),
        dec_bytes(f.local_var_count as nat),
    ] + addr_field_seqs(f.param_addresses@));
    crate::numtext::lemma_i32_round_trip(f.start_idx);
    crate::numtext::lemma_u64_round_trip(f.param_count as u64);
    crate::numtext::lemma_u64_round_trip(f.local_var_count as u64);
    assert(fs.len() == 4 + f.param_count);
    assert(parse_i32_val(fs[1]) is Some);
    assert(count_field_ok(fs[2]));
    assert(count_field_ok(fs[3]));
    assert(parse_u64_val(fs[2]).unwrap() == f.param_count);
    assert forall|k: int| 4 <= k < fs.len() implies parse_i32_val(#[trigger] fs[k]) is Some by {
        assert(fs[k] == addr_field_seqs(f.param_addresses@)[k - 4]);
        assert(fs[k] == int_bytes(f.param_addresses@[k - 4] as int));
        crate::numtext::lemma_i32_round_trip(f.param_addresses@[k - 4]);
    }
}

/// An integer constant run keeps the parser in its section.
pub proof fn lemma_int_run(cs: Seq<(i32, i32)>, st: ParseState)
    requires
        st.section == 1,
    ensures
        parse_effect(int_lines(cs), st) == Some(
            (ParseState { int_constants: st.int_constants + cs, ..st }),
        ),
    decreases cs.len(),
{
    if cs.len() == 0 {
        assert(int_lines(cs) =~= Seq::<Seq<u8>>::empty());
        assert(st.int_constants + cs =~= st.int_constants);
        assert((ParseState { int_constants: st.int_constants + cs, ..st }) =~= st);
    } else {
        assert(int_lines(cs)[0] == int_const_line(cs[0]));
        lemma_int_line_effect(st, cs[0]);
        assert(int_lines(cs).drop_first() =~= int_lines(cs.drop_first()));
        let st2 = ParseState { int_constants: st.int_constants.push(cs[0]), ..st };
        lemma_int_run(cs.drop_first(), st2);
        assert(st.int_constants.push(cs[0]) + cs.drop_first() =~= st.int_constants + cs);
    }
}

/// A float constant run keeps the parser in its section.
pub proof fn lemma_float_run(cs: Seq<(u64, i32)>, st: ParseState)
    requires
        st.section == 2,
    ensures
        parse_effect(float_lines(cs), st) == Some(
            (ParseState { float_constants: st.float_constants + cs, ..st }),
        ),
    decreases cs.len(),
{
    if cs.len() == 0 {
        assert(float_lines(cs) =~= Seq::<Seq<u8>>::empty());
        assert(st.float_constants + cs =~= st.float_constants);
        assert((ParseState { float_constants: st.float_constants + cs, ..st }) =~= st);
    } else {
        assert(float_lines(cs)[0] == float_const_line(cs[0]));
        lemma_float_line_effect(st, cs[0]);
        assert(float_lines(cs).drop_first() =~= float_lines(cs.drop_first()));
        let st2 = ParseState { float_constants: st.float_constants.push(cs[0]), ..st };
        lemma_float_run(cs.drop_first(), st2);
        assert(st.float_constants.push(cs[0]) + cs.drop_first() =~= st.float_constants + cs);
    }
}

/// A function run keeps the parser in its section.
pub proof fn lemma_function_run(fs: Seq<ObjFunction>, st: ParseState)
    requires
        st.section == 3,
        forall|k: int| 0 <= k < fs.len() ==> obj_fn_wf(#[trigger] fs[k]),
    ensures
        parse_effect(function_lines(fs), st) == Some(st),
    decreases fs.len(),
{
    if fs.len() == 0 {
        assert(function_lines(fs) =~= Seq::<Seq<u8>>::empty());
    } else {
        assert(function_lines(fs)[0] == function_line(fs[0]));
        lemma_function_line_effect(st, fs[0]);
        assert(function_lines(fs).drop_first() =~= function_lines(fs.drop_first()));
        assert forall|k: int| 0 <= k < fs.drop_first().len() implies obj_fn_wf(
            #[trigger] fs.drop_first()[k],
        ) by {
            assert(fs.drop_first()[k] == fs[k + 1]);
        }
        lemma_function_run(fs.drop_first(), st);
    }
}

/// A quadruple run appends exactly its quadruples.
pub proof fn lemma_quad_run(qs: Seq<Quadruple>, st: ParseState)
    requires
        st.section == 4,
    ensures
        parse_effect(quad_lines(qs), st) == Some(
            (ParseState { quadruples: st.quadruples + qs, ..st }),
        ),
    decreases qs.len(),
{
    if qs.len() == 0 {
        assert(quad_lines(qs) =~= Seq::<Seq<u8>>::empty());
        assert(st.quadruples + qs =~= st.quadruples);
        assert((ParseState { quadruples: st.quadruples + qs, ..st }) =~= st);
    } else {
        assert(quad_lines(qs)[0] == quad_line(qs[0]));
        lemma_quad_line_effect(st, qs[0]);
        assert(quad_lines(qs).drop_first() =~= quad_lines(qs.drop_first()));
        let st2 = ParseState { quadruples: st.quadruples.push(qs[0]), ..st };
        lemma_quad_run(qs.drop_first(), st2);
        assert(st.quadruples.push(qs[0]) + qs.drop_first() =~= st.quadruples + qs);
    }
}

/// Effects of the four header lines and their footers: only the section
/// changes.
pub proof fn lemma_marker_effects(st: ParseState)
    ensures
        line_effect(st, int_header()) == Some((ParseState { section: 1, ..st })),
        line_effect(st, float_header()) == Some((ParseState { section: 2, ..st })),
        line_effect(st, functions_header()) == Some((ParseState { section: 3, ..st })),
        line_effect(st, quadruples_header()) == Some((ParseState { section: 4, ..st })),
        line_effect(st, footer_of(int_header())) == Some((ParseState { section: 0, ..st })),
        line_effect(st, footer_of(float_header())) == Some((ParseState { section: 0, ..st })),
        line_effect(st, footer_of(functions_header())) == Some(
            (ParseState { section: 0, ..st }),
        ),
        line_effect(st, footer_of(quadruples_header())) == Some(
            (ParseState { section: 0, ..st }),
        ),
{
    assert(float_header() != int_header()) by {
        assert(int_header().len() != float_header().len());
    }
    assert(functions_header() != int_header());
    assert(quadruples_header() != int_header());
    assert(functions_header() != float_header());
    assert(quadruples_header() != float_header());
    assert(quadruples_header() != functions_header()) by {
        assert(functions_header()[0] != quadruples_header()[0]);
    }
}

/// Round trip: serializing an artifact and folding the parser over the
/// resulting lines succeeds and yields back exactly what was serialized —
/// both constant pools pairwise and the quadruple stream with `operation`,
/// `arg1`, `arg2`, and `result` equal pairwise.
#[verifier::rlimit(60)]
pub proof fn lemma_artifact_round_trip(obj: ObjectProgram)
    requires
        obj_wf(obj),
    ensures
        parse_effect(serialized_lines(obj), parse_init()) == Some(
            (ParseState {
                section: 0,
                int_constants: obj.int_constants@,
                float_constants: obj.float_constants@,
                quadruples: obj.quadruples@,
            }),
        ),
{
    let st0 = parse_init();
    let st1 = ParseState { section: 1, ..st0 };
    let st2 = ParseState { int_constants: obj.int_constants@, ..st1 };
    let st3 = ParseState { section: 2, ..st2 };
    let st4 = ParseState { float_constants: obj.float_constants@, ..st3 };
    let st5 = ParseState { section: 3, ..st4 };
    let st6 = ParseState { section: 4, ..st5 };
    let st7 = ParseState { quadruples: obj.quadruples@, ..st6 };
    let st8 = ParseState { section: 0, ..st7 };
    let hdr_ints = seq![int_header()];
    let body_ints = int_lines(obj.int_constants@);
    let seam_floats = seq![footer_of(int_header()), float_header()];
    let body_floats = float_lines(obj.float_constants@);
    let seam_funcs = seq![footer_of(float_header()), functions_header()];
    let body_funcs = function_lines(obj.functions@);
    let seam_quads = seq![footer_of(functions_header()), quadruples_header()];
    let body_quads = quad_lines(obj.quadruples@);
    let ftr_quads = seq![footer_of(quadruples_header())];
    assert(parse_effect(hdr_ints, st0) == Some(st1)) by {
        lemma_marker_effects(st0);
        assert(hdr_ints[0] == int_header());
        assert(hdr_ints.drop_first() =~= Seq::<Seq<u8>>::empty());
        assert(parse_effect(hdr_ints.drop_first(), st1) == Some(st1));
    }
    assert(parse_effect(body_ints, st1) == Some(st2)) by {
        lemma_int_run(obj.int_constants@, st1);
        assert(st1.int_constants + obj.int_constants@ =~= obj.int_constants@);
        assert((ParseState { int_constants: st1.int_constants + obj.int_constants@, ..st1 })
            =~= st2);
    }
    assert(parse_effect(seam_floats, st2) == Some(st3)) by {
        lemma_marker_effects(st2);
        let mid = ParseState { section: 0, ..st2 };
        lemma_marker_effects(mid);
        assert(seam_floats[0] == footer_of(int_header()));
        assert(seam_floats.drop_first() =~= seq![float_header()]);
        assert(seq![float_header()][0] == float_header());
        assert(seq![float_header()].drop_first() =~= Seq::<Seq<u8>>::empty());
        assert(line_effect(mid, float_header()) == Some((ParseState { section: 2, ..mid })));
        assert((ParseState { section: 2, ..mid }) =~= st3);
        assert(parse_effect(Seq::<Seq<u8>>::empty(), st3) == Some(st3));
        assert(parse_effect(seq![float_header()], mid) == Some(st3));
    }
    assert(parse_effect(body_floats, st3) == Some(st4)) by {
        lemma_float_run(obj.float_constants@, st3);
        assert(st3.float_constants + obj.float_constants@ =~= obj.float_constants@);
        assert((ParseState { float_constants: st3.float_constants + obj.float_constants@, ..st3 })
            =~= st4);
    }
    assert(parse_effect(seam_funcs, st4) == Some(st5)) by {
        lemma_marker_effects(st4);
        let mid = ParseState { section: 0, ..st4 };
        lemma_marker_effects(mid);
        assert(seam_funcs[0] == footer_of(float_header()));
        assert(seam_funcs.drop_first() =~= seq![functions_header()]);
        assert(seq![functions_header()][0] == functions_header());
        assert(seq![functions_header()].drop_first() =~= Seq::<Seq<u8>>::empty());
        assert((ParseState { section: 3, ..mid }) =~= st5);
        assert(parse_effect(Seq::<Seq<u8>>::empty(), st5) == Some(st5));
        assert(parse_effect(seq![functions_header()], mid) == Some(st5));
    }
    assert(parse_effect(body_funcs, st5) == Some(st5)) by {
        lemma_function_run(obj.functions@, st5);
    }
    assert(parse_effect(seam_quads, st5) == Some(st6)) by {
        lemma_marker_effects(st5);
        let mid = ParseState { section: 0, ..st5 };
        lemma_marker_effects(mid);
        assert(seam_quads[0] == footer_of(functions_header()));
        assert(seam_quads.drop_first() =~= seq![quadruples_header()]);
        assert(seq![quadruples_header()][0] == quadruples_header());
        assert(seq![quadruples_header()].drop_first() =~= Seq::<Seq<u8>>::empty());
        assert((ParseState { section: 4, ..mid }) =~= st6);
        assert(parse_effect(Seq::<Seq<u8>>::empty(), st6) == Some(st6));
        assert(parse_effect(seq![quadruples_header()], mid) == Some(st6));
    }
    assert(parse_effect(body_quads, st6) == Some(st7)) by {
        lemma_quad_run(obj.quadruples@, st6);
        assert(st6.quadruples + obj.quadruples@ =~= obj.quadruples@);
        assert((ParseState { quadruples: st6.quadruples + obj.quadruples@, ..st6 }) =~= st7);
    }
    assert(parse_effect(ftr_quads, st7) == Some(st8)) by {
        lemma_marker_effects(st7);
        assert(ftr_quads[0] == footer_of(quadruples_header()));
        assert(ftr_quads.drop_first() =~= Seq::<Seq<u8>>::empty());
        assert(parse_effect(ftr_quads.drop_first(), st8) == Some(st8));
    }
    let rest_ftr = ftr_quads;
    let rest_quads = body_quads + rest_ftr;
    let rest_seam_quads = seam_quads + rest_quads;
    let rest_funcs = body_funcs + rest_seam_quads;
    let rest_seam_funcs = seam_funcs + rest_funcs;
    let rest_floats = body_floats + rest_seam_funcs;
    let rest_seam_floats = seam_floats + rest_floats;
    let rest_ints = body_ints + rest_seam_floats;
    let whole = hdr_ints + rest_ints;
    lemma_parse_effect_concat(body_quads, rest_ftr, st6);
    lemma_parse_effect_concat(seam_quads, rest_quads, st5);
    lemma_parse_effect_concat(body_funcs, rest_seam_quads, st5);
    lemma_parse_effect_concat(seam_funcs, rest_funcs, st4);
    lemma_parse_effect_concat(body_floats, rest_seam_funcs, st3);
    lemma_parse_effect_concat(seam_floats, rest_floats, st2);
    lemma_parse_effect_concat(body_ints, rest_seam_floats, st1);
    lemma_parse_effect_concat(hdr_ints, rest_ints, st0);
    assert(serialized_lines(obj) =~= whole);
    assert(st8 =~= (ParseState {
        section: 0,
        int_constants: obj.int_constants@,
        float_constants: obj.float_constants@,
        quadruples: obj.quadruples@,
    }));
    assert(parse_effect(whole, st0) == Some(st8));
}

/// The directory entries the artifact carries: every scope except
/// `global` and the program's own marker entry, in directory order.
pub open spec fn callable_entries(
    fs: Seq<(String, crate::function_directory::FunctionInfo)>,
    pid: Seq<char>,
) -> Seq<(String, crate::function_directory::FunctionInfo)>
    decreases fs.len(),
{
    if fs.len() == 0 {
        Seq::empty()
    } else {
        let rest = callable_entries(fs.drop_first(), pid);
        if fs[0].0@ == "global"@ || fs[0].0@ == pid {
            rest
        } else {
            seq![fs[0]] + rest
        }
    }
}

/// The parameter addresses a directory entry declares, in order.
pub open spec fn param_addr_seq(ps: Seq<(String, crate::ast::Type, i32)>) -> Seq<i32> {
    ps.map_values(|p: (String, crate::ast::Type, i32)| p.2)
}

/// The artifact's function entries describe exactly the given directory
/// entries: name (as its character encoding), recorded start index (-1
/// when unset), parameter count and addresses, and local count.
pub open spec fn obj_fns_match(
    objs: Seq<ObjFunction>,
    es: Seq<(String, crate::function_directory::FunctionInfo)>,
) -> bool {
    &&& objs.len() == es.len()
    &&& forall|k: int|
        0 <= k < es.len() ==> {
            &&& (#[trigger] objs[k]).name@ == vstd::utf8::encode_utf8(es[k].0@)
            &&& objs[k].start_idx == (match es[k].1.start_quad_idx {
                Some(st) => st,
                None => -1i32,
            })
            &&& objs[k].param_count == es[k].1.parameters@.len()
            &&& objs[k].local_var_count == es[k].1.local_variables@.len()
            &&& objs[k].param_addresses@ == param_addr_seq(es[k].1.parameters@)
        }
}

/// One more directory entry extends the callable entries by itself unless
/// it is reserved.
pub proof fn lemma_callable_take_step(
    fs: Seq<(String, crate::function_directory::FunctionInfo)>,
    pid: Seq<char>,
    i: int,
)
    requires
        0 <= i < fs.len(),
    ensures
        callable_entries(fs.take(i + 1), pid) == callable_entries(fs.take(i), pid) + (
        if fs[i].0@ == "global"@ || fs[i].0@ == pid {
            Seq::<(String, crate::function_directory::FunctionInfo)>::empty()
        } else {
            seq![fs[i]]
        }),
    decreases i,
{
    if i == 0 {
        assert(fs.take(1).drop_first() =~= Seq::<(
            String,
            crate::function_directory::FunctionInfo,
        )>::empty());
        assert(fs.take(0) =~= Seq::<(String, crate::function_directory::FunctionInfo)>::empty());
        assert(fs.take(1)[0] == fs[0]);
        if fs[0].0@ == "global"@ || fs[0].0@ == pid {
            assert(callable_entries(fs.take(1), pid) =~= callable_entries(fs.take(0), pid));
        } else {
            assert(callable_entries(fs.take(1), pid) =~= callable_entries(fs.take(0), pid) + seq![
                fs[0],
            ]);
        }
    } else {
        lemma_callable_take_step(fs.drop_first(), pid, i - 1);
        assert(fs.take(i + 1).drop_first() =~= fs.drop_first().take(i));
        assert(fs.take(i).drop_first() =~= fs.drop_first().take(i - 1));
        assert(fs.take(i + 1)[0] == fs[0]);
        assert(fs.take(i)[0] == fs[0]);
        assert(fs.drop_first()[i - 1] == fs[i]);
        if fs[i].0@ == "global"@ || fs[i].0@ == pid {
            assert(callable_entries(fs.take(i + 1), pid) =~= callable_entries(fs.take(i), pid));
        } else {
            assert(callable_entries(fs.take(i + 1), pid) =~= callable_entries(fs.take(i), pid)
                + seq![fs[i]]);
        }
    }
}

/// Assembles the artifact of a finished compilation: the two constant
/// pools, one function entry per callable scope (the `global` scope and
/// the program's marker entry are not callable and are skipped), and the
/// instruction stream, which is carried over exactly.
pub fn build_object(gen: &crate::generator::QuadrupleGenerator, program_id: &str) -> (r:
    ObjectProgram)
    requires
        crate::generator::gen_wf(*gen),
        gen.function_directory is Some,
    ensures
        r.quadruples@ == gen.quad_queue@,
        r.int_constants@.len() == gen.int_constants@.len(),
        forall|k: int|
            0 <= k < gen.int_constants@.len() ==> #[trigger] r.int_constants@[k] == (
                gen.int_constants@[k],
                (MemoryAddresses::CTE_INT_START + k) as i32,
            ),
        r.float_constants@.len() == gen.float_constants@.len(),
        forall|k: int|
            0 <= k < gen.float_constants@.len() ==> #[trigger] r.float_constants@[k] == (
                gen.float_constants@[k],
                (MemoryAddresses::CTE_FLOAT_START + k) as i32,
            ),
        obj_fns_match(
            r.functions@,
            callable_entries(gen.function_directory.unwrap().functions@, program_id@),
        ),
{
    let int_constants = gen.get_int_constants();
    let float_constants = gen.get_float_constants();
    let mut functions: Vec<ObjFunction> = Vec::new();
    let dir = match &gen.function_directory {
        Some(d) => d,
        None => {
            let quadruples = copy_quads(&gen.quad_queue);
            return ObjectProgram { int_constants, float_constants, functions, quadruples };
        },
    };
    let fns = dir.get_all_functions();
    let n = fns.len();
    let mut i: usize = 0;
    proof {
        assert(fns@.take(0) =~= Seq::<(String, crate::function_directory::FunctionInfo)>::empty());
    }
    while i < n
        invariant
            i <= n,
            n == fns@.len(),
            fns@ == gen.function_directory.unwrap().functions@,
            obj_fns_match(functions@, callable_entries(fns@.take(i as int), program_id@)),
        decreases n - i,
    {
        proof {
            lemma_callable_take_step(fns@, program_id@, i as int);
        }
        let name = &fns[i].0;
        let info = &fns[i].1;
        let skip_entry = crate::function_directory::str_eq(name.as_str(), "global")
            || crate::function_directory::str_eq(name.as_str(), program_id);
        if !skip_entry {
            let start_idx = match info.start_quad_idx {
                Some(st) => st,
                None => -1,
            };
            let mut name_bytes: Vec<u8> = Vec::new();
            let nb = name.as_str().as_bytes();
            let mut b: usize = 0;
            while b < nb.len()
                invariant
                    b <= nb@.len(),
                    name_bytes@ == nb@.take(b as int),
                decreases nb.len() - b,
            {
                name_bytes.push(nb[b]);
                proof {
                    assert(name_bytes@ =~= nb@.take(b + 1));
                }
                b = b + 1;
            }
            proof {
                assert(name_bytes@ =~= nb@);
            }
            let mut param_addresses: Vec<i32> = Vec::new();
            let np = info.parameters.len();
            let mut k: usize = 0;
            while k < np
                invariant
                    k <= np,
                    np == info.parameters@.len(),
                    param_addresses@.len() == k,
                    forall|j: int|
                        0 <= j < k ==> #[trigger] param_addresses@[j] == info.parameters@[j].2,
                decreases np - k,
            {
                param_addresses.push(info.parameters[k].2);
                k = k + 1;
            }
            proof {
                assert(param_addresses@ =~= param_addr_seq(info.parameters@));
            }
            let param_count = param_addresses.len();
            let local_var_count = info.local_variables.len();
            functions.push(
                ObjFunction {
                    name: name_bytes,
                    start_idx,
                    param_count,
                    local_var_count,
                    param_addresses,
                },
            );
            proof {
                let prev = callable_entries(fns@.take(i as int), program_id@);
                assert(callable_entries(fns@.take(i + 1), program_id@) =~= prev + seq![
                    fns@[i as int],
                ]);
                assert forall|k2: int|
                    0 <= k2 < prev.len() + 1 implies {
                    let es = callable_entries(fns@.take(i + 1), program_id@);
                    &&& (#[trigger] functions@[k2]).name@ == vstd::utf8::encode_utf8(es[k2].0@)
                    &&& functions@[k2].start_idx == (match es[k2].1.start_quad_idx {
                        Some(st) => st,
                        None => -1i32,
                    })
                    &&& functions@[k2].param_count == es[k2].1.parameters@.len()
                    &&& functions@[k2].local_var_count == es[k2].1.local_variables@.len()
                    &&& functions@[k2].param_addresses@ == param_addr_seq(es[k2].1.parameters@)
                } by {
                    let es = callable_entries(fns@.take(i + 1), program_id@);
                    if k2 < prev.len() {
                        assert(functions@[k2] == functions@.drop_last()[k2]);
                        assert(es[k2] == prev[k2]);
                    } else {
                        assert(functions@[k2] == functions@.last());
                        assert(es[k2] == fns@[i as int]);
                    }
                }
            }
        } else {
            proof {
                assert(callable_entries(fns@.take(i + 1), program_id@) =~= callable_entries(
                    fns@.take(i as int),
                    program_id@,
                ));
            }
        }
        i = i + 1;
    }
    proof {
        assert(fns@.take(n as int) =~= fns@);
    }
    let quadruples = copy_quads(&gen.quad_queue);
    ObjectProgram { int_constants, float_constants, functions, quadruples }
}

/// Copies an instruction stream.
fn copy_quads(qs: &Vec<Quadruple>) -> (r: Vec<Quadruple>)
    ensures
        r@ == qs@,
{
    let mut out: Vec<Quadruple> = Vec::new();
    let n = qs.len();
    let mut i: usize = 0;
    while i < n
        invariant
            0 <= i <= n,
            n == qs@.len(),
            out@ == qs@.take(i as int),
        decreases n - i,
    {
        out.push(qs[i]);
        proof {
            assert(out@ =~= qs@.take(i + 1));
        }
        i = i + 1;
    }
    proof {
        assert(qs@.take(n as int) =~= qs@);
    }
    out
}

} // verus!
