//! The macro pre-expander: collects `MACRO`/`MACROEND` definitions with
//! positional and keyword parameters of the form `&name` or
//! `&name=default`, and replaces each later invocation by the macro's
//! body with the parameter values substituted, keeping line order.
//! Parameter substitution applies bindings in their definition order.

use vstd::prelude::*;
use vstd::string::*;
use crate::text::{str_eq, tokenize, tokens, trim, trim_spec, match_at, views_of};

verus! {

/// A parameter with its current value, if any.
pub struct ParamBinding {
    name: String,
    value: Option<String>,
}

/// Model of a binding.
#[verifier::ext_equal]
pub ghost struct BindingModel {
    pub name: Seq<char>,
    pub value: Option<Seq<char>>,
}

impl View for ParamBinding {
    type V = BindingModel;

    closed spec fn view(&self) -> BindingModel {
        BindingModel {
            name: self.name@,
            value: match self.value {
                Some(ref v) => Some(v@),
                None => None,
            },
        }
    }
}

/// One collected macro definition.
pub struct MacroMetadata {
    name: String,
    params: Vec<String>,
    bindings: Vec<ParamBinding>,
    body: Vec<String>,
}

/// Model of a macro definition: its name, the formal parameters in
/// header order, their default bindings, and the body lines.
#[verifier::ext_equal]
pub ghost struct MacroModel {
    pub name: Seq<char>,
    pub params: Seq<Seq<char>>,
    pub bindings: Seq<BindingModel>,
    pub body: Seq<Seq<char>>,
}

impl View for MacroMetadata {
    type V = MacroModel;

    closed spec fn view(&self) -> MacroModel {
        MacroModel {
            name: self.name@,
            params: views_of(self.params@),
            bindings: self.bindings@.map_values(|b: ParamBinding| b@),
            body: views_of(self.body@),
        }
    }
}

/// The processor: the macros collected so far, in definition order.
pub struct MacroProcessor {
    macros: Vec<MacroMetadata>,
}

impl View for MacroProcessor {
    type V = Seq<MacroModel>;

    closed spec fn view(&self) -> Seq<MacroModel> {
        self.macros@.map_values(|m: MacroMetadata| m@)
    }
}

/// `s` without its leading ampersands.
pub open spec fn strip_amps(s: Seq<char>) -> Seq<char>
    decreases s.len(),
{
    if s.len() > 0 && s[0] == '&' {
        strip_amps(s.drop_first())
    } else {
        s
    }
}

/// First position of `'='` in `s` at or after `i`, or -1.
pub open spec fn first_eq(s: Seq<char>, i: int) -> int
    decreases s.len() - i,
{
    if i < 0 || i >= s.len() {
        -1
    } else if s[i] == '=' {
        i
    } else {
        first_eq(s, i + 1)
    }
}

/// First index of a binding named `name`, or -1.
pub open spec fn binding_index(bs: Seq<BindingModel>, name: Seq<char>, i: int) -> int
    decreases bs.len() - i,
{
    if i < 0 || i >= bs.len() {
        -1
    } else if bs[i].name == name {
        i
    } else {
        binding_index(bs, name, i + 1)
    }
}

/// Sets the value of `name`, adding the binding if it is new.
pub open spec fn bind_set_or_add(
    bs: Seq<BindingModel>,
    name: Seq<char>,
    value: Option<Seq<char>>,
) -> Seq<BindingModel> {
    let i = binding_index(bs, name, 0);
    if i >= 0 {
        bs.update(i, BindingModel { name: bs[i].name, value })
    } else {
        bs.push(BindingModel { name, value })
    }
}

/// Sets the value of `name` only if the binding exists.
pub open spec fn bind_set_if_present(
    bs: Seq<BindingModel>,
    name: Seq<char>,
    value: Option<Seq<char>>,
) -> Seq<BindingModel> {
    let i = binding_index(bs, name, 0);
    if i >= 0 {
        bs.update(i, BindingModel { name: bs[i].name, value })
    } else {
        bs
    }
}

/// One header token after the macro name: `&name` declares a parameter
/// without a default, `&name=value` one with a default; anything else
/// is ignored.
pub open spec fn header_token_step(
    params: Seq<Seq<char>>,
    bs: Seq<BindingModel>,
    tok: Seq<char>,
) -> (Seq<Seq<char>>, Seq<BindingModel>) {
    let e = first_eq(tok, 0);
    if e >= 0 {
        let key = tok.take(e);
        let value = tok.skip(e + 1);
        if key.len() > 0 && key[0] == '&' {
            let pname = strip_amps(key);
            (params.push(pname), bind_set_or_add(bs, pname, Some(value)))
        } else {
            (params, bs)
        }
    } else {
        if tok.len() > 0 && tok[0] == '&' {
            let pname = strip_amps(tok);
            (params.push(pname), bind_set_or_add(bs, pname, None))
        } else {
            (params, bs)
        }
    }
}

/// The first `k` header tokens after the macro name.
pub open spec fn header_fold(toks: Seq<Seq<char>>, k: int) -> (Seq<Seq<char>>, Seq<BindingModel>)
    decreases k,
{
    if k <= 1 {
        (Seq::<Seq<char>>::empty(), Seq::<BindingModel>::empty())
    } else {
        let prev = header_fold(toks, k - 1);
        header_token_step(prev.0, prev.1, toks[k - 1])
    }
}

/// What a macro header line declares: the name (first token, empty when
/// the line is blank) and the parameters of the remaining tokens.
pub open spec fn parse_header_spec(hdr: Seq<char>) -> MacroModel {
    let toks = tokens(hdr);
    let pb = header_fold(toks, toks.len() as int);
    MacroModel {
        name: if toks.len() > 0 {
            toks[0]
        } else {
            Seq::<char>::empty()
        },
        params: pb.0,
        bindings: pb.1,
        body: Seq::<Seq<char>>::empty(),
    }
}

/// First line at or after `j` that reads `MACROEND` once trimmed, or
/// the end of the input.
pub open spec fn find_macroend(lines: Seq<Seq<char>>, j: int) -> int
    decreases lines.len() - j,
{
    if j < 0 || j >= lines.len() {
        lines.len() as int
    } else if trim_spec(lines[j]) == "MACROEND"@ {
        j
    } else {
        find_macroend(lines, j + 1)
    }
}

/// The body lines between `j` and `end`, each trimmed.
pub open spec fn body_of(lines: Seq<Seq<char>>, j: int, end: int) -> Seq<Seq<char>> {
    Seq::new((end - j) as nat, |q: int| trim_spec(lines[j + q]))
}

/// First index of a macro named `name`, or -1.
pub open spec fn macro_index(ms: Seq<MacroModel>, name: Seq<char>, i: int) -> int
    decreases ms.len() - i,
{
    if i < 0 || i >= ms.len() {
        -1
    } else if ms[i].name == name {
        i
    } else {
        macro_index(ms, name, i + 1)
    }
}

/// Every occurrence of `pat` in `s` replaced by `rep`, left to right,
/// without rescanning the replacement (an empty pattern replaces
/// nothing).
pub open spec fn replace_all_spec(s: Seq<char>, pat: Seq<char>, rep: Seq<char>) -> Seq<char>
    decreases s.len(),
{
    if pat.len() == 0 || s.len() < pat.len() {
        s
    } else if s.take(pat.len() as int) == pat {
        rep + replace_all_spec(s.skip(pat.len() as int), pat, rep)
    } else {
        s.take(1) + replace_all_spec(s.skip(1), pat, rep)
    }
}

/// The first `k` bindings applied to `line`, in order: each bound value
/// replaces `&name`.
pub open spec fn apply_bindings(line: Seq<char>, bs: Seq<BindingModel>, k: int) -> Seq<char>
    decreases k,
{
    if k <= 0 {
        line
    } else {
        let prev = apply_bindings(line, bs, k - 1);
        match bs[k - 1].value {
            Some(v) => replace_all_spec(prev, seq!['&'] + bs[k - 1].name, v),
            None => prev,
        }
    }
}

/// Index of the first invocation token containing `'='`, where the
/// keyword arguments start; positional arguments precede it.
pub open spec fn first_kw(args: Seq<Seq<char>>, i: int) -> int
    decreases args.len() - i,
{
    if i < 0 || i >= args.len() {
        args.len() as int
    } else if first_eq(args[i], 0) >= 0 {
        i
    } else {
        first_kw(args, i + 1)
    }
}

/// The first `k` positional arguments bound to the formals of the same
/// rank (extras beyond the formals are dropped).
pub open spec fn positional_fold(
    bs: Seq<BindingModel>,
    params: Seq<Seq<char>>,
    args: Seq<Seq<char>>,
    k: int,
) -> Seq<BindingModel>
    decreases k,
{
    if k <= 0 {
        bs
    } else {
        let prev = positional_fold(bs, params, args, k - 1);
        if k - 1 < params.len() {
            bind_set_if_present(prev, params[k - 1], Some(args[k - 1]))
        } else {
            prev
        }
    }
}

/// The keyword arguments from `kw` to `k`: `name=value` tokens set an
/// existing binding; other tokens are ignored.
pub open spec fn keyword_fold(bs: Seq<BindingModel>, args: Seq<Seq<char>>, kw: int, k: int) -> Seq<
    BindingModel,
>
    decreases k - kw,
{
    if k <= kw {
        bs
    } else {
        let prev = keyword_fold(bs, args, kw, k - 1);
        let tok = args[k - 1];
        let e = first_eq(tok, 0);
        if e >= 0 {
            bind_set_if_present(prev, tok.take(e), Some(tok.skip(e + 1)))
        } else {
            prev
        }
    }
}

/// The bindings an invocation resolves to: the defaults, the positional
/// arguments, then the keyword arguments.
pub open spec fn resolve_bindings(m: MacroModel, args: Seq<Seq<char>>) -> Seq<BindingModel> {
    let kw = first_kw(args, 0);
    let pos = positional_fold(m.bindings, m.params, args, kw);
    keyword_fold(pos, args, kw, args.len() as int)
}

/// The lines an invocation with the given argument tokens expands to.
pub open spec fn expand_spec(m: MacroModel, args: Seq<Seq<char>>) -> Seq<Seq<char>> {
    let bs = resolve_bindings(m, args);
    m.body.map_values(|line: Seq<char>| apply_bindings(line, bs, bs.len() as int))
}

/// The whole expansion pass from line `i` on, with the macros collected
/// so far and the output produced so far: a `MACRO` line collects the
/// definition that follows (a `MACRO` on the last line collects
/// nothing); a line starting with a known macro name expands; every
/// other line is copied, trimmed.
pub open spec fn mp_from(
    lines: Seq<Seq<char>>,
    i: int,
    macros: Seq<MacroModel>,
    out: Seq<Seq<char>>,
) -> (Seq<MacroModel>, Seq<Seq<char>>)
    decreases lines.len() - i,
{
    if i < 0 || i >= lines.len() {
        (macros, out)
    } else {
        let t = trim_spec(lines[i]);
        let toks = tokens(t);
        if toks.len() > 0 && toks[0] == "MACRO"@ {
            if i + 1 >= lines.len() {
                (macros, out)
            } else {
                let end = find_macroend(lines, i + 2);
                let m = MacroModel {
                    body: body_of(lines, i + 2, end),
                    ..parse_header_spec(lines[i + 1])
                };
                let next = if end < i + 2 {
                    i + 2
                } else if end + 1 <= lines.len() {
                    end + 1
                } else {
                    lines.len() as int
                };
                mp_from(lines, next, macros.push(m), out)
            }
        } else if toks.len() > 0 && macro_index(macros, toks[0], 0) >= 0 {
            let m = macros[macro_index(macros, toks[0], 0)];
            mp_from(lines, i + 1, macros, out + expand_spec(m, toks.skip(1)))
        } else {
            mp_from(lines, i + 1, macros, out.push(t))
        }
    }
}

/// The view of an optional owned string.
pub open spec fn opt_view(v: Option<String>) -> Option<Seq<char>> {
    match v {
        Some(s) => Some(s@),
        None => None,
    }
}

proof fn lemma_strip_amps_skip(s: Seq<char>, i: int)
    requires
        0 <= i <= s.len(),
        forall|j: int| 0 <= j < i ==> s[j] == '&',
        i < s.len() ==> s[i] != '&',
    ensures
        strip_amps(s) == s.skip(i),
    decreases i,
{
    if i == 0 {
        assert(s.skip(0) =~= s);
    } else {
        assert(s.drop_first() =~= s.skip(1));
        lemma_strip_amps_skip(s.skip(1), i - 1);
        assert(s.skip(1).skip(i - 1) =~= s.skip(i));
    }
}

/// Removes the leading ampersands of a parameter token.
fn strip_prefix_amps(s: &str) -> (r: String)
    ensures
        r@ == strip_amps(s@),
{
    let n = s.unicode_len();
    let mut i: usize = 0;
    while i < n && s.get_char(i) == '&'
        invariant
            n == s@.len(),
            i <= n,
            forall|j: int| 0 <= j < i ==> s@[j] == '&',
        decreases n - i,
    {
        i += 1;
    }
    proof {
        lemma_strip_amps_skip(s@, i as int);
    }
    let r = String::from_str(s.substring_char(i, n));
    proof {
        assert(r@ =~= s@.skip(i as int));
    }
    r
}

/// Position of the first `'='`, if any.
fn find_eq(s: &str) -> (r: Option<usize>)
    ensures
        match r {
            Some(i) => first_eq(s@, 0) == i && i < s@.len(),
            None => first_eq(s@, 0) == -1,
        },
{
    let n = s.unicode_len();
    let mut i: usize = 0;
    while i < n
        invariant
            n == s@.len(),
            i <= n,
            first_eq(s@, 0) == first_eq(s@, i as int),
        decreases n - i,
    {
        if s.get_char(i) == '=' {
            return Some(i);
        }
        i += 1;
    }
    None
}

/// First index of a binding named `name`, if any.
fn binding_find(bs: &Vec<ParamBinding>, name: &str) -> (r: Option<usize>)
    ensures
        ({
            let bv = bs@.map_values(|b: ParamBinding| b@);
            match r {
                Some(i) => binding_index(bv, name@, 0) == i && i < bs@.len(),
                None => binding_index(bv, name@, 0) == -1,
            }
        }),
{
    let ghost bv = bs@.map_values(|b: ParamBinding| b@);
    let n = bs.len();
    let mut i: usize = 0;
    while i < n
        invariant
            i <= n,
            n == bs@.len(),
            bv == bs@.map_values(|b: ParamBinding| b@),
            binding_index(bv, name@, 0) == binding_index(bv, name@, i as int),
        decreases n - i,
    {
        if str_eq(bs[i].name.as_str(), name) {
            assert(bv[i as int].name == name@);
            return Some(i);
        }
        assert(bv[i as int].name != name@);
        i += 1;
    }
    None
}

/// Sets `name` to `value`, adding the binding if it is new.
fn binding_set_or_add(bs: &mut Vec<ParamBinding>, name: String, value: Option<String>)
    ensures
        final(bs)@.map_values(|b: ParamBinding| b@) == bind_set_or_add(
            old(bs)@.map_values(|b: ParamBinding| b@),
            name@,
            opt_view(value),
        ),
{
    let found = binding_find(bs, name.as_str());
    match found {
        Some(i) => {
            let nm = bs[i].name.clone();
            bs[i] = ParamBinding { name: nm, value };
            proof {
                let bv0 = old(bs)@.map_values(|b: ParamBinding| b@);
                assert(bs@.map_values(|b: ParamBinding| b@) =~= bv0.update(
                    i as int,
                    BindingModel { name: bv0[i as int].name, value: opt_view(value) },
                ));
            }
        },
        None => {
            bs.push(ParamBinding { name, value });
            proof {
                let bv0 = old(bs)@.map_values(|b: ParamBinding| b@);
                assert(bs@.map_values(|b: ParamBinding| b@) =~= bv0.push(
                    bs@.last()@,
                ));
            }
        },
    }
}

/// Sets `name` to `value` only if the binding exists.
fn binding_set_if_present(bs: &mut Vec<ParamBinding>, name: &str, value: Option<String>)
    ensures
        final(bs)@.map_values(|b: ParamBinding| b@) == bind_set_if_present(
            old(bs)@.map_values(|b: ParamBinding| b@),
            name@,
            opt_view(value),
        ),
{
    let found = binding_find(bs, name);
    match found {
        Some(i) => {
            let nm = bs[i].name.clone();
            bs[i] = ParamBinding { name: nm, value };
            proof {
                let bv0 = old(bs)@.map_values(|b: ParamBinding| b@);
                assert(bs@.map_values(|b: ParamBinding| b@) =~= bv0.update(
                    i as int,
                    BindingModel { name: bv0[i as int].name, value: opt_view(value) },
                ));
            }
        },
        None => {},
    }
}

/// Replaces every occurrence of `pat` in `s` by `rep`, left to right.
fn replace_all(s: &str, pat: &str, rep: &str) -> (r: String)
    ensures
        r@ == replace_all_spec(s@, pat@, rep@),
{
    let m = pat.unicode_len();
    let n = s.unicode_len();
    if m == 0 {
        return String::from_str(s);
    }
    let mut out = String::new();
    let mut i: usize = 0;
    proof {
        assert(s@.skip(0) =~= s@);
        assert(Seq::<char>::empty() + replace_all_spec(s@, pat@, rep@) =~= replace_all_spec(
            s@,
            pat@,
            rep@,
        ));
    }
    while m <= n && i <= n - m
        invariant
            0 < m == pat@.len(),
            n == s@.len(),
            i <= n,
            replace_all_spec(s@, pat@, rep@) == out@ + replace_all_spec(
                s@.skip(i as int),
                pat@,
                rep@,
            ),
        decreases n - i,
    {
        assert(i + m <= n);
        let ghost suffix = s@.skip(i as int);
        if match_at(s, i, pat) {
            proof {
                assert(suffix.take(m as int) =~= s@.subrange(i as int, i + m));
                assert(suffix.skip(m as int) =~= s@.skip(i + m));
            }
            out.append(rep);
            proof {
                assert(out@ + replace_all_spec(s@.skip(i + m), pat@, rep@) =~= replace_all_spec(
                    s@,
                    pat@,
                    rep@,
                ));
            }
            i += m;
        } else {
            proof {
                assert(suffix.take(m as int) =~= s@.subrange(i as int, i + m));
                assert(suffix.take(1) =~= s@.subrange(i as int, i + 1));
                assert(suffix.skip(1) =~= s@.skip(i + 1));
            }
            out.append(s.substring_char(i, i + 1));
            proof {
                assert(out@ + replace_all_spec(s@.skip(i + 1), pat@, rep@) =~= replace_all_spec(
                    s@,
                    pat@,
                    rep@,
                ));
            }
            i += 1;
        }
    }
    out.append(s.substring_char(i, n));
    proof {
        assert(s@.skip(i as int).len() < m as int);
        assert(replace_all_spec(s@.skip(i as int), pat@, rep@) == s@.skip(i as int));
        assert(out@ =~= replace_all_spec(s@, pat@, rep@));
    }
    out
}

/// Reads a macro header line: the name, then the parameter tokens.
fn parse_header(hdr: &str) -> (m: MacroMetadata)
    ensures
        m@ == parse_header_spec(hdr@),
{
    let toks = tokenize(hdr);
    let ghost tv = tokens(hdr@);
    let name = if toks.len() > 0 {
        toks[0].clone()
    } else {
        String::new()
    };
    let mut params: Vec<String> = Vec::new();
    let mut bindings: Vec<ParamBinding> = Vec::new();
    let mut k: usize = 1;
    proof {
        assert(views_of(params@) =~= Seq::<Seq<char>>::empty());
        assert(bindings@.map_values(|b: ParamBinding| b@) =~= Seq::<BindingModel>::empty());
    }
    while k < toks.len()
        invariant
            1 <= k <= toks@.len() || (toks@.len() == 0 && k == 1),
            tv == views_of(toks@),
            (views_of(params@), bindings@.map_values(|b: ParamBinding| b@)) == header_fold(
                tv,
                k as int,
            ),
        decreases toks@.len() - k,
    {
        let tok = toks[k].as_str();
        proof {
            assert(tok@ == tv[k as int]);
        }
        let tok_len = tok.unicode_len();
        match find_eq(tok) {
            Some(e) => {
                let key = tok.substring_char(0, e);
                let value = String::from_str(tok.substring_char(e + 1, tok_len));
                proof {
                    assert(key@ =~= tok@.take(e as int));
                    assert(value@ =~= tok@.skip(e + 1));
                }
                if key.unicode_len() > 0 && key.get_char(0) == '&' {
                    let pname = strip_prefix_amps(key);
                    let ghost pre_params = views_of(params@);
                    params.push(pname.clone());
                    binding_set_or_add(&mut bindings, pname, Some(value));
                    proof {
                        assert(views_of(params@) =~= pre_params.push(strip_amps(key@)));
                    }
                }
            },
            None => {
                if tok_len > 0 && tok.get_char(0) == '&' {
                    let pname = strip_prefix_amps(tok);
                    let ghost pre_params = views_of(params@);
                    params.push(pname.clone());
                    binding_set_or_add(&mut bindings, pname, None);
                    proof {
                        assert(views_of(params@) =~= pre_params.push(strip_amps(tok@)));
                    }
                }
            },
        }
        k += 1;
    }
    let m = MacroMetadata { name, params, bindings, body: Vec::new() };
    proof {
        assert(views_of(m.body@) =~= Seq::<Seq<char>>::empty());
        assert(m@ =~~= parse_header_spec(hdr@));
    }
    m
}

/// First line at or after `j` that reads `MACROEND` once trimmed.
fn find_macroend_exec(lines: &[String], j: usize) -> (e: usize)
    requires
        j <= lines@.len(),
    ensures
        e == find_macroend(views_of(lines@), j as int),
        j <= e <= lines@.len(),
{
    let ghost lv = views_of(lines@);
    let n = lines.len();
    let mut i: usize = j;
    while i < n
        invariant
            j <= i <= n,
            n == lines@.len(),
            lv == views_of(lines@),
            find_macroend(lv, j as int) == find_macroend(lv, i as int),
        decreases n - i,
    {
        if str_eq(trim(lines[i].as_str()), "MACROEND") {
            return i;
        }
        i += 1;
    }
    n
}

/// Collects the definition whose header stands at `h`: the parameters
/// of the header line and the trimmed body lines up to `MACROEND`.
/// Also returns the index of the first line after the definition.
fn parse_macro(lines: &[String], h: usize) -> (r: (MacroMetadata, usize))
    requires
        h < lines@.len(),
    ensures
        ({
            let lv = views_of(lines@);
            let end = find_macroend(lv, h + 1);
            &&& r.0@ == (MacroModel { body: body_of(lv, h + 1, end), ..parse_header_spec(lv[h as int]) })
            &&& r.1 == if end + 1 <= lv.len() {
                end + 1
            } else {
                lv.len() as int
            }
            &&& h < r.1 <= lv.len()
        }),
{
    let ghost lv = views_of(lines@);
    let mut m = parse_header(lines[h].as_str());
    let end = find_macroend_exec(lines, h + 1);
    let mut body: Vec<String> = Vec::new();
    let mut q: usize = h + 1;
    proof {
        assert(views_of(body@) =~= body_of(lv, h + 1, h + 1));
    }
    while q < end
        invariant
            h + 1 <= q <= end,
            end <= lines@.len(),
            lv == views_of(lines@),
            views_of(body@) == body_of(lv, h + 1, q as int),
        decreases end - q,
    {
        let ghost pre = views_of(body@);
        body.push(String::from_str(trim(lines[q].as_str())));
        proof {
            assert(views_of(body@) =~= pre.push(trim_spec(lv[q as int])));
            assert(body_of(lv, h + 1, q + 1) =~= body_of(lv, h + 1, q as int).push(
                trim_spec(lv[q as int]),
            ));
        }
        q += 1;
    }
    m.body = body;
    let next = if end < lines.len() {
        end + 1
    } else {
        lines.len()
    };
    proof {
        assert(m@ =~~= (MacroModel {
            body: body_of(lv, h + 1, find_macroend(lv, h + 1)),
            ..parse_header_spec(lv[h as int])
        }));
    }
    (m, next)
}

/// Applies the resolved bindings to one body line, in order.
fn apply_bindings_exec(line: &str, bs: &Vec<ParamBinding>) -> (r: String)
    ensures
        ({
            let bv = bs@.map_values(|b: ParamBinding| b@);
            r@ == apply_bindings(line@, bv, bv.len() as int)
        }),
{
    let ghost bv = bs@.map_values(|b: ParamBinding| b@);
    let mut cur = String::from_str(line);
    let n = bs.len();
    let mut k: usize = 0;
    while k < n
        invariant
            k <= n,
            n == bs@.len(),
            bv == bs@.map_values(|b: ParamBinding| b@),
            cur@ == apply_bindings(line@, bv, k as int),
        decreases n - k,
    {
        match &bs[k].value {
            Some(v) => {
                let mut pat = String::from_str("&");
                pat.append(bs[k].name.as_str());
                proof {
                    reveal_strlit("&");
                    assert("&"@ =~= seq!['&']);
                    assert(pat@ =~= seq!['&'] + bv[k as int].name);
                }
                cur = replace_all(cur.as_str(), pat.as_str(), v.as_str());
            },
            None => {},
        }
        k += 1;
    }
    cur
}

/// Expands one invocation: the argument tokens of the line, from
/// `start` on, resolved against the macro's parameters, applied to
/// every body line.
fn expand_macro(m: &MacroMetadata, toks: &Vec<String>, start: usize) -> (out: Vec<String>)
    requires
        start <= toks@.len(),
    ensures
        views_of(out@) == expand_spec(m@, views_of(toks@).skip(start as int)),
{
    let ghost args = views_of(toks@).skip(start as int);
    let mut resolved: Vec<ParamBinding> = Vec::new();
    let nb = m.bindings.len();
    let mut c: usize = 0;
    proof {
        assert(resolved@.map_values(|b: ParamBinding| b@) =~= m@.bindings.take(0));
    }
    while c < nb
        invariant
            c <= nb,
            nb == m.bindings@.len(),
            resolved@.map_values(|b: ParamBinding| b@) == m@.bindings.take(c as int),
        decreases nb - c,
    {
        let ghost pre = resolved@.map_values(|b: ParamBinding| b@);
        let nm = m.bindings[c].name.clone();
        let vl = match &m.bindings[c].value {
            Some(v) => Some(v.clone()),
            None => None,
        };
        resolved.push(ParamBinding { name: nm, value: vl });
        proof {
            assert(resolved@.map_values(|b: ParamBinding| b@) =~= pre.push(
                m@.bindings[c as int],
            ));
            assert(m@.bindings.take(c + 1) =~= m@.bindings.take(c as int).push(
                m@.bindings[c as int],
            ));
        }
        c += 1;
    }
    proof {
        assert(m@.bindings.take(nb as int) =~= m@.bindings);
    }
    let ntoks = toks.len();
    let mut kw: usize = start;
    while kw < ntoks && matches!(find_eq(toks[kw].as_str()), None)
        invariant
            start <= kw <= ntoks,
            ntoks == toks@.len(),
            args == views_of(toks@).skip(start as int),
            first_kw(args, 0) == first_kw(args, (kw - start) as int),
        decreases ntoks - kw,
    {
        proof {
            assert(args[kw - start] == views_of(toks@)[kw as int]);
        }
        kw += 1;
    }
    proof {
        if kw < ntoks {
            assert(args[kw - start] == views_of(toks@)[kw as int]);
        }
        assert(first_kw(args, 0) == kw - start);
    }
    let mut p: usize = start;
    while p < kw
        invariant
            start <= p <= kw <= ntoks,
            ntoks == toks@.len(),
            args == views_of(toks@).skip(start as int),
            first_kw(args, 0) == kw - start,
            resolved@.map_values(|b: ParamBinding| b@) == positional_fold(
                m@.bindings,
                m@.params,
                args,
                (p - start) as int,
            ),
        decreases kw - p,
    {
        proof {
            assert(args[p - start] == views_of(toks@)[p as int]);
        }
        if p - start < m.params.len() {
            let formal = &m.params[p - start];
            proof {
                assert(formal@ == m@.params[p - start]);
            }
            binding_set_if_present(&mut resolved, formal.as_str(), Some(toks[p].clone()));
        }
        p += 1;
    }
    let mut k: usize = kw;
    while k < ntoks
        invariant
            kw <= k <= ntoks,
            ntoks == toks@.len(),
            start <= kw,
            args == views_of(toks@).skip(start as int),
            first_kw(args, 0) == kw - start,
            resolved@.map_values(|b: ParamBinding| b@) == keyword_fold(
                positional_fold(m@.bindings, m@.params, args, (kw - start) as int),
                args,
                (kw - start) as int,
                (k - start) as int,
            ),
        decreases ntoks - k,
    {
        let tok = toks[k].as_str();
        proof {
            assert(tok@ == args[k - start]);
        }
        let tok_len = tok.unicode_len();
        match find_eq(tok) {
            Some(e) => {
                let key = tok.substring_char(0, e);
                let value = String::from_str(tok.substring_char(e + 1, tok_len));
                proof {
                    assert(key@ =~= tok@.take(e as int));
                    assert(value@ =~= tok@.skip(e + 1));
                }
                binding_set_if_present(&mut resolved, key, Some(value));
            },
            None => {},
        }
        k += 1;
    }
    proof {
        assert(resolved@.map_values(|b: ParamBinding| b@) == resolve_bindings(m@, args));
    }
    let mut out: Vec<String> = Vec::new();
    let nbody = m.body.len();
    let mut q: usize = 0;
    proof {
        assert(views_of(out@) =~= m@.body.take(0).map_values(
            |line: Seq<char>| apply_bindings(line, resolve_bindings(m@, args), resolve_bindings(
                m@,
                args,
            ).len() as int),
        ));
    }
    while q < nbody
        invariant
            q <= nbody,
            nbody == m.body@.len(),
            args == views_of(toks@).skip(start as int),
            resolved@.map_values(|b: ParamBinding| b@) == resolve_bindings(m@, args),
            views_of(out@) == m@.body.take(q as int).map_values(
                |line: Seq<char>|
                    apply_bindings(
                        line,
                        resolve_bindings(m@, args),
                        resolve_bindings(m@, args).len() as int,
                    ),
            ),
        decreases nbody - q,
    {
        let ghost pre = views_of(out@);
        let expanded = apply_bindings_exec(m.body[q].as_str(), &resolved);
        out.push(expanded);
        proof {
            let f = |line: Seq<char>|
                apply_bindings(
                    line,
                    resolve_bindings(m@, args),
                    resolve_bindings(m@, args).len() as int,
                );
            assert(views_of(out@) =~= pre.push(f(m@.body[q as int])));
            assert(m@.body.take(q + 1).map_values(f) =~= m@.body.take(q as int).map_values(
                f,
            ).push(f(m@.body[q as int])));
        }
        q += 1;
    }
    proof {
        assert(m@.body.take(nbody as int) =~= m@.body);
        assert(views_of(out@) =~= expand_spec(m@, args));
    }
    out
}

impl MacroProcessor {
    /// A processor with no macros collected yet.
    pub fn new() -> (p: Self)
        ensures
            p@ == Seq::<MacroModel>::empty(),
    {
        let p = Self { macros: Vec::new() };
        proof {
            assert(p@ =~= Seq::<MacroModel>::empty());
        }
        p
    }

    /// First collected macro of the given name, if any.
    fn find_macro(&self, name: &str) -> (r: Option<usize>)
        ensures
            match r {
                Some(i) => macro_index(self@, name@, 0) == i && i < self.macros@.len(),
                None => macro_index(self@, name@, 0) == -1,
            },
    {
        let n = self.macros.len();
        let mut i: usize = 0;
        while i < n
            invariant
                i <= n,
                n == self.macros@.len(),
                macro_index(self@, name@, 0) == macro_index(self@, name@, i as int),
            decreases n - i,
        {
            if str_eq(self.macros[i].name.as_str(), name) {
                assert(self@[i as int].name == name@);
                return Some(i);
            }
            assert(self@[i as int].name != name@);
            i += 1;
        }
        None
    }

    /// One pass over the source: collects definitions and expands
    /// invocations, returning the expanded line sequence. Macros stay
    /// collected across calls.
    pub fn macro_process(&mut self, source_lines: &[String]) -> (out: Vec<String>)
        ensures
            ({
                let r = mp_from(views_of(source_lines@), 0, old(self)@, Seq::<Seq<char>>::empty());
                final(self)@ == r.0 && views_of(out@) == r.1
            }),
    {
        let ghost lv = views_of(source_lines@);
        let mut out: Vec<String> = Vec::new();
        let n = source_lines.len();
        let mut i: usize = 0;
        proof {
            assert(views_of(out@) =~= Seq::<Seq<char>>::empty());
        }
        while i < n
            invariant
                i <= n,
                n == source_lines@.len(),
                lv == views_of(source_lines@),
                mp_from(lv, 0, old(self)@, Seq::<Seq<char>>::empty()) == mp_from(
                    lv,
                    i as int,
                    self@,
                    views_of(out@),
                ),
            decreases n - i,
        {
            let ghost cur = self@;
            let ghost cur_out = views_of(out@);
            let t = trim(source_lines[i].as_str());
            proof {
                assert(t@ == trim_spec(lv[i as int]));
            }
            let toks = tokenize(t);
            let ghost tv = tokens(t@);
            let mut handled = false;
            if toks.len() > 0 {
                let t0 = toks[0].as_str();
                proof {
                    assert(t0@ == tv[0]);
                }
                if str_eq(t0, "MACRO") {
                    handled = true;
                    if i + 1 >= n {
                        proof {
                            assert(mp_from(lv, i as int, cur, cur_out) == (cur, cur_out));
                            assert(mp_from(lv, n as int, cur, cur_out) == (cur, cur_out));
                        }
                        i = n;
                    } else {
                        let parsed = parse_macro(source_lines, i + 1);
                        let ghost mm = parsed.0@;
                        self.macros.push(parsed.0);
                        proof {
                            assert(self@ =~= cur.push(mm));
                            assert(mp_from(lv, i as int, cur, cur_out) == mp_from(
                                lv,
                                parsed.1 as int,
                                self@,
                                views_of(out@),
                            ));
                        }
                        i = parsed.1;
                    }
                } else {
                    match self.find_macro(t0) {
                        Some(mi) => {
                            handled = true;
                            let mut expanded = expand_macro(&self.macros[mi], &toks, 1);
                            proof {
                                assert(self@[mi as int] == cur[macro_index(cur, tv[0], 0)]);
                                assert(views_of(expanded@) == expand_spec(
                                    cur[macro_index(cur, tv[0], 0)],
                                    tv.skip(1),
                                ));
                            }
                            out.append(&mut expanded);
                            proof {
                                assert(views_of(out@) =~= cur_out + expand_spec(
                                    cur[macro_index(cur, tv[0], 0)],
                                    tv.skip(1),
                                ));
                            }
                            i += 1;
                        },
                        None => {},
                    }
                }
            }
            if !handled {
                let ghost pre = views_of(out@);
                out.push(String::from_str(t));
                proof {
                    assert(views_of(out@) =~= pre.push(t@));
                }
                i += 1;
            }
        }
        out
    }
}

} // verus!
