//! Template expansion: path strings with placeholders of the form
//! `{ident(.ident)*}` resolved against the media context.
//!
//! Expansion is a single left-to-right scan: a brace that opens a
//! well-formed placeholder is replaced, any other character is copied.
//! A placeholder whose name resolves to nothing is replaced by the literal
//! `{unknown:<name>}`. Substituted text is never rescanned.

use crate::context::MediaContext;
use crate::context::MediaContextV;
use crate::context::meta_lookup;
use crate::render::spec_e7_str;
use crate::render::spec_meta_val_str;
use crate::render::dynamic_to_string;
use crate::render::e7_to_chars;
use crate::text::chars_eq_str;
use crate::text::chars_to_string;
use crate::text::copy_from;
use crate::text::copy_range;
use crate::text::spec_u64_digits;
use crate::text::str_to_chars;
use crate::text::u64_to_chars;
use vstd::prelude::*;

verus! {

pub open spec fn is_ident_start(c: char) -> bool {
    ('a' <= c && c <= 'z') || ('A' <= c && c <= 'Z') || c == '_'
}

pub open spec fn is_ident_char(c: char) -> bool {
    is_ident_start(c) || ('0' <= c && c <= '9')
}

pub fn is_ident_start_exec(c: char) -> (r: bool)
    ensures
        r == is_ident_start(c),
{
    ('a' <= c && c <= 'z') || ('A' <= c && c <= 'Z') || c == '_'
}

pub fn is_ident_char_exec(c: char) -> (r: bool)
    ensures
        r == is_ident_char(c),
{
    is_ident_start_exec(c) || ('0' <= c && c <= '9')
}

/// Walks a dotted identifier chain from position `i`. `expect` records
/// whether the next character must begin an identifier. The result is the
/// position one past the chain, or -1 if no well-formed chain starts here.
pub open spec fn chain_end(t: Seq<char>, i: int, expect: bool) -> int
    decreases t.len() - i,
{
    if i < 0 || i >= t.len() {
        if expect {
            -1
        } else {
            i
        }
    } else if expect {
        if is_ident_start(t[i]) {
            chain_end(t, i + 1, false)
        } else {
            -1
        }
    } else {
        if is_ident_char(t[i]) {
            chain_end(t, i + 1, false)
        } else if t[i] == '.' {
            chain_end(t, i + 1, true)
        } else {
            i
        }
    }
}

pub proof fn lemma_chain_end_range(t: Seq<char>, i: int, expect: bool)
    requires
        0 <= i <= t.len(),
    ensures
        chain_end(t, i, expect) == -1 || i <= chain_end(t, i, expect) <= t.len(),
    decreases t.len() - i,
{
    if i < t.len() {
        lemma_chain_end_range(t, i + 1, false);
        lemma_chain_end_range(t, i + 1, true);
    }
}

/// Does position `i` (a `{`) open a well-formed placeholder?
pub open spec fn placeholder_at(t: Seq<char>, i: int) -> bool {
    &&& 0 <= i < t.len()
    &&& t[i] == '{'
    &&& {
        let e = chain_end(t, i + 1, true);
        0 <= e < t.len() && t[e] == '}'
    }
}

/// What one resolved placeholder contributes to the output.
pub open spec fn resolve_or_unknown(name: Seq<char>, ctx: MediaContextV) -> Seq<char> {
    match spec_resolve(name, ctx) {
        Option::Some(s) => s,
        Option::None => "{unknown:"@ + name + "}"@,
    }
}

pub open spec fn has_dot(s: Seq<char>) -> bool {
    exists|i: int| 0 <= i < s.len() && s[i] == '.'
}

pub open spec fn has_prefix(s: Seq<char>, p: Seq<char>) -> bool {
    s.len() >= p.len() && s.subrange(0, p.len() as int) == p
}

/// The variable surface: dotted references into the context blocks, the
/// bare `type`, and dynamic `meta.<tag>` lookups.
pub open spec fn spec_resolve(name: Seq<char>, ctx: MediaContextV) -> Option<Seq<char>> {
    if name == "type"@ {
        Option::Some(ctx.media_type)
    } else if has_prefix(name, "time."@) {
        spec_resolve_time(name.skip(5), ctx)
    } else if has_prefix(name, "space."@) {
        spec_resolve_space(name.skip(6), ctx)
    } else if has_prefix(name, "source."@) {
        spec_resolve_source(name.skip(7), ctx)
    } else if has_prefix(name, "special."@) {
        spec_resolve_special(name.skip(8), ctx)
    } else if has_prefix(name, "meta."@) && !has_dot(name.skip(5)) {
        match meta_lookup(ctx.meta, name.skip(5)) {
            Option::Some(v) => Option::Some(spec_meta_val_str(v)),
            Option::None => Option::None,
        }
    } else {
        Option::None
    }
}

pub open spec fn spec_resolve_time(field: Seq<char>, ctx: MediaContextV) -> Option<Seq<char>> {
    if field == "yyyy"@ {
        Option::Some(ctx.time.yyyy)
    } else if field == "mm"@ {
        Option::Some(ctx.time.mm)
    } else if field == "dd"@ {
        Option::Some(ctx.time.dd)
    } else if field == "hh"@ {
        Option::Some(ctx.time.hh)
    } else if field == "min"@ {
        Option::Some(ctx.time.minute)
    } else if field == "ss"@ {
        Option::Some(ctx.time.ss)
    } else if field == "month_name"@ {
        Option::Some(ctx.time.month_name)
    } else if field == "weekday"@ {
        Option::Some(ctx.time.weekday)
    } else {
        Option::None
    }
}

pub open spec fn spec_resolve_space(field: Seq<char>, ctx: MediaContextV) -> Option<Seq<char>> {
    if field == "country"@ {
        Option::Some(ctx.space.country)
    } else if field == "country_code"@ {
        Option::Some(ctx.space.country_code)
    } else if field == "state"@ {
        Option::Some(ctx.space.state)
    } else if field == "city"@ {
        Option::Some(ctx.space.city)
    } else if field == "district"@ {
        Option::Some(ctx.space.district)
    } else if field == "road"@ {
        Option::Some(ctx.space.road)
    } else if field == "lat"@ {
        Option::Some(spec_e7_str(ctx.space.lat_e7))
    } else if field == "lon"@ {
        Option::Some(spec_e7_str(ctx.space.lon_e7))
    } else if field == "altitude"@ {
        match ctx.space.altitude_e3 {
            Option::Some(a) => Option::Some(crate::render::spec_rat_str(a, 1000)),
            Option::None => Option::None,
        }
    } else {
        Option::None
    }
}

pub open spec fn spec_resolve_source(field: Seq<char>, ctx: MediaContextV) -> Option<Seq<char>> {
    if field == "path"@ {
        Option::Some(ctx.source.path)
    } else if field == "name"@ {
        Option::Some(ctx.source.name)
    } else if field == "extension"@ {
        Option::Some(ctx.source.extension)
    } else if field == "original"@ {
        Option::Some(ctx.source.original)
    } else if field == "size"@ {
        Option::Some(spec_u64_digits(ctx.source.size as nat))
    } else {
        Option::None
    }
}

pub open spec fn spec_resolve_special(field: Seq<char>, ctx: MediaContextV) -> Option<Seq<char>> {
    if field == "md5"@ {
        Option::Some(ctx.special.md5)
    } else if field == "md5_short"@ {
        Option::Some(ctx.special.md5_short)
    } else if field == "count"@ {
        Option::Some(spec_u64_digits(ctx.special.count as nat))
    } else {
        Option::None
    }
}

/// The expansion of `t` from position `i` on.
pub open spec fn expand_from(t: Seq<char>, i: int, ctx: MediaContextV) -> Seq<char>
    decreases t.len() - i,
    via expand_from_decreases
{
    if i < 0 || i >= t.len() {
        Seq::<char>::empty()
    } else if placeholder_at(t, i) {
        let e = chain_end(t, i + 1, true);
        resolve_or_unknown(t.subrange(i + 1, e), ctx) + expand_from(t, e + 1, ctx)
    } else {
        seq![t[i]] + expand_from(t, i + 1, ctx)
    }
}

#[via_fn]
proof fn expand_from_decreases(t: Seq<char>, i: int, ctx: MediaContextV) {
    if 0 <= i < t.len() && placeholder_at(t, i) {
        lemma_chain_end_range(t, i + 1, true);
    }
}

/// Full expansion of a template against a context.
pub open spec fn spec_expand(t: Seq<char>, ctx: MediaContextV) -> Seq<char> {
    expand_from(t, 0, ctx)
}

/// Resolves one dotted variable name; `None` for unknown references.
pub fn resolve_variable(name: &Vec<char>, context: &MediaContext) -> (r: Option<String>)
    ensures
        match r {
            Option::Some(s) => spec_resolve(name@, context@) == Option::Some(s@),
            Option::None => spec_resolve(name@, context@) is None,
        },
{
    proof {
        reveal_strlit("time.");
        reveal_strlit("space.");
        reveal_strlit("source.");
        reveal_strlit("special.");
        reveal_strlit("meta.");
    }
    if chars_eq_str(name, "type") {
        return Option::Some(context.media_type.clone());
    }
    if has_prefix_exec(name, "time.") {
        let field = copy_from(name, 5);
        if chars_eq_str(&field, "yyyy") {
            return Option::Some(context.time.yyyy.clone());
        } else if chars_eq_str(&field, "mm") {
            return Option::Some(context.time.mm.clone());
        } else if chars_eq_str(&field, "dd") {
            return Option::Some(context.time.dd.clone());
        } else if chars_eq_str(&field, "hh") {
            return Option::Some(context.time.hh.clone());
        } else if chars_eq_str(&field, "min") {
            return Option::Some(context.time.minute.clone());
        } else if chars_eq_str(&field, "ss") {
            return Option::Some(context.time.ss.clone());
        } else if chars_eq_str(&field, "month_name") {
            return Option::Some(context.time.month_name.clone());
        } else if chars_eq_str(&field, "weekday") {
            return Option::Some(context.time.weekday.clone());
        } else {
            return Option::None;
        }
    }
    if has_prefix_exec(name, "space.") {
        let field = copy_from(name, 6);
        if chars_eq_str(&field, "country") {
            return Option::Some(context.space.country.clone());
        } else if chars_eq_str(&field, "country_code") {
            return Option::Some(context.space.country_code.clone());
        } else if chars_eq_str(&field, "state") {
            return Option::Some(context.space.state.clone());
        } else if chars_eq_str(&field, "city") {
            return Option::Some(context.space.city.clone());
        } else if chars_eq_str(&field, "district") {
            return Option::Some(context.space.district.clone());
        } else if chars_eq_str(&field, "road") {
            return Option::Some(context.space.road.clone());
        } else if chars_eq_str(&field, "lat") {
            let v = e7_to_chars(context.space.lat_e7);
            return Option::Some(chars_to_string(&v));
        } else if chars_eq_str(&field, "lon") {
            let v = e7_to_chars(context.space.lon_e7);
            return Option::Some(chars_to_string(&v));
        } else if chars_eq_str(&field, "altitude") {
            match context.space.altitude_e3 {
                Option::Some(a) => {
                    let v = crate::render::rat_to_chars(a, 1000);
                    return Option::Some(chars_to_string(&v));
                },
                Option::None => {
                    return Option::None;
                },
            }
        } else {
            return Option::None;
        }
    }
    if has_prefix_exec(name, "source.") {
        let field = copy_from(name, 7);
        if chars_eq_str(&field, "path") {
            return Option::Some(context.source.path.clone());
        } else if chars_eq_str(&field, "name") {
            return Option::Some(context.source.name.clone());
        } else if chars_eq_str(&field, "extension") {
            return Option::Some(context.source.extension.clone());
        } else if chars_eq_str(&field, "original") {
            return Option::Some(context.source.original.clone());
        } else if chars_eq_str(&field, "size") {
            let v = u64_to_chars(context.source.size);
            return Option::Some(chars_to_string(&v));
        } else {
            return Option::None;
        }
    }
    if has_prefix_exec(name, "special.") {
        let field = copy_from(name, 8);
        if chars_eq_str(&field, "md5") {
            return Option::Some(context.special.md5.clone());
        } else if chars_eq_str(&field, "md5_short") {
            return Option::Some(context.special.md5_short.clone());
        } else if chars_eq_str(&field, "count") {
            let v = u64_to_chars(context.special.count as u64);
            return Option::Some(chars_to_string(&v));
        } else {
            return Option::None;
        }
    }
    if has_prefix_exec(name, "meta.") {
        let field = copy_from(name, 5);
        if !contains_dot(&field) {
            let key = chars_to_string(&field);
            match context.meta.get(key.as_str()) {
                Option::Some(v) => {
                    return Option::Some(dynamic_to_string(&v));
                },
                Option::None => {
                    return Option::None;
                },
            }
        } else {
            return Option::None;
        }
    }
    Option::None
}

fn contains_dot(v: &Vec<char>) -> (r: bool)
    ensures
        r == has_dot(v@),
{
    let mut i: usize = 0;
    let n = v.len();
    while i < n
        invariant
            i <= n,
            n == v@.len(),
            forall|j: int| 0 <= j < i ==> v@[j] != '.',
        decreases n - i,
    {
        if v[i] == '.' {
            return true;
        }
        i += 1;
    }
    false
}

pub fn has_prefix_exec(v: &Vec<char>, p: &str) -> (r: bool)
    ensures
        r == has_prefix(v@, p@),
{
    let plen = p.unicode_len();
    if v.len() < plen {
        return false;
    }
    let mut i: usize = 0;
    while i < plen
        invariant
            i <= plen,
            plen == p@.len(),
            plen <= v@.len(),
            forall|j: int| 0 <= j < i ==> v@[j] == p@[j],
        decreases plen - i,
    {
        if v[i] != p.get_char(i) {
            proof {
                assert(v@.subrange(0, p@.len() as int)[i as int] != p@[i as int]);
            }
            return false;
        }
        i += 1;
    }
    proof {
        assert(v@.subrange(0, p@.len() as int) =~= p@);
    }
    true
}

/// Scans a dotted identifier chain from `start`; `None` when no well-formed
/// chain begins there.
pub fn chain_scan(t: &Vec<char>, start: usize) -> (r: Option<usize>)
    requires
        start <= t@.len(),
    ensures
        match r {
            Option::Some(e) => chain_end(t@, start as int, true) == e && start <= e <= t@.len(),
            Option::None => chain_end(t@, start as int, true) == -1,
        },
{
    let n = t.len();
    let mut j = start;
    let mut expect = true;
    while j < n
        invariant
            start <= j <= n,
            n == t@.len(),
            chain_end(t@, start as int, true) == chain_end(t@, j as int, expect),
        decreases n - j,
    {
        let c = t[j];
        if expect {
            if is_ident_start_exec(c) {
                expect = false;
                j += 1;
            } else {
                return Option::None;
            }
        } else {
            if is_ident_char_exec(c) {
                j += 1;
            } else if c == '.' {
                expect = true;
                j += 1;
            } else {
                return Option::Some(j);
            }
        }
    }
    if expect {
        Option::None
    } else {
        Option::Some(j)
    }
}

/// Expands every placeholder of `template` against `context`. Total: every
/// template produces an output, unknown references surface as
/// `{unknown:<name>}` literals.
pub fn apply_template(template: &str, context: &MediaContext) -> (r: String)
    ensures
        r@ == spec_expand(template@, context@),
{
    let t = str_to_chars(template);
    let n = t.len();
    let mut out: Vec<char> = Vec::new();
    let mut i: usize = 0;
    proof {
        assert(Seq::<char>::empty() + expand_from(t@, 0, context@) =~= expand_from(
            t@,
            0,
            context@,
        ));
    }
    while i < n
        invariant
            i <= n,
            n == t@.len(),
            t@ == template@,
            expand_from(t@, 0, context@) == out@ + expand_from(t@, i as int, context@),
        decreases n - i,
    {
        let c = t[i];
        let mut matched = false;
        if c == '{' {
            match chain_scan(&t, i + 1) {
                Option::Some(e) => {
                    if e < n && t[e] == '}' {
                        matched = true;
                        let name = copy_range(&t, i + 1, e);
                        let piece: Vec<char>;
                        match resolve_variable(&name, context) {
                            Option::Some(s) => {
                                piece = str_to_chars(s.as_str());
                            },
                            Option::None => {
                                let mut u = str_to_chars("{unknown:");
                                let mut k: usize = 0;
                                while k < name.len()
                                    invariant
                                        k <= name@.len(),
                                        u@ == "{unknown:"@ + name@.take(k as int),
                                    decreases name@.len() - k,
                                {
                                    u.push(name[k]);
                                    proof {
                                        assert("{unknown:"@ + name@.take(k + 1 as int) =~= (
                                        "{unknown:"@ + name@.take(k as int)).push(
                                            name@[k as int],
                                        ));
                                    }
                                    k += 1;
                                }
                                u.push('}');
                                proof {
                                    assert(name@.take(name@.len() as int) =~= name@);
                                    assert(u@ =~= "{unknown:"@ + name@ + "}"@) by {
                                        reveal_strlit("}");
                                        assert("}"@ =~= seq!['}']);
                                        assert(("{unknown:"@ + name@).push('}') =~= "{unknown:"@
                                            + name@ + seq!['}']);
                                    }
                                }
                                piece = u;
                            },
                        }
                        proof {
                            assert(placeholder_at(t@, i as int));
                            assert(expand_from(t@, i as int, context@) == resolve_or_unknown(
                                t@.subrange(i + 1 as int, e as int),
                                context@,
                            ) + expand_from(t@, e + 1 as int, context@));
                            assert(piece@ == resolve_or_unknown(
                                t@.subrange(i + 1 as int, e as int),
                                context@,
                            ));
                        }
                        let mut k: usize = 0;
                        let ghost out_before = out@;
                        while k < piece.len()
                            invariant
                                k <= piece@.len(),
                                out@ == out_before + piece@.take(k as int),
                            decreases piece@.len() - k,
                        {
                            out.push(piece[k]);
                            proof {
                                assert(out_before + piece@.take(k + 1 as int) =~= (out_before
                                    + piece@.take(k as int)).push(piece@[k as int]));
                            }
                            k += 1;
                        }
                        proof {
                            assert(piece@.take(piece@.len() as int) =~= piece@);
                            assert(out@ + expand_from(t@, e + 1 as int, context@) =~= out_before
                                + (piece@ + expand_from(t@, e + 1 as int, context@)));
                        }
                        i = e + 1;
                    }
                },
                Option::None => {},
            }
        }
        if !matched {
            proof {
                assert(!placeholder_at(t@, i as int));
                assert(expand_from(t@, i as int, context@) == seq![t@[i as int]] + expand_from(
                    t@,
                    i + 1 as int,
                    context@,
                ));
                assert(out@.push(t@[i as int]) + expand_from(t@, i + 1 as int, context@) =~= out@
                    + (seq![t@[i as int]] + expand_from(t@, i + 1 as int, context@)));
            }
            out.push(c);
            i += 1;
        }
    }
    proof {
        assert(expand_from(t@, n as int, context@) =~= Seq::<char>::empty());
        assert(out@ + Seq::<char>::empty() =~= out@);
    }
    chars_to_string(&out)
}

/// A string in which no well-formed placeholder opens anywhere.
pub open spec fn placeholder_free(t: Seq<char>) -> bool {
    forall|i: int| 0 <= i < t.len() ==> !placeholder_at(t, i)
}

/// Expansion leaves a placeholder-free string untouched.
pub proof fn lemma_expand_fixed(t: Seq<char>, i: int, ctx: MediaContextV)
    requires
        placeholder_free(t),
        0 <= i <= t.len(),
    ensures
        expand_from(t, i, ctx) == t.skip(i),
    decreases t.len() - i,
{
    if i >= t.len() {
        assert(expand_from(t, i, ctx) =~= t.skip(i));
    } else {
        lemma_expand_fixed(t, i + 1, ctx);
        assert(expand_from(t, i, ctx) =~= t.skip(i));
    }
}

/// Expansion is idempotent once its result is placeholder-free: expanding a
/// template whose every variable resolved (and whose substituted values
/// introduced no new placeholder) again changes nothing. Unknown-reference
/// literals are themselves never re-expanded, since `unknown:<name>` is no
/// well-formed single identifier chain.
pub proof fn lemma_expand_idempotent(t: Seq<char>, ctx: MediaContextV)
    requires
        placeholder_free(spec_expand(t, ctx)),
    ensures
        spec_expand(spec_expand(t, ctx), ctx) == spec_expand(t, ctx),
{
    lemma_expand_fixed(spec_expand(t, ctx), 0, ctx);
    assert(spec_expand(t, ctx).skip(0) =~= spec_expand(t, ctx));
}


/// Does the literal `p` occur in `t` at position `i`?
pub open spec fn lit_at(t: Seq<char>, i: int, p: Seq<char>) -> bool {
    0 <= i && i + p.len() <= t.len() && t.subrange(i, i + p.len()) == p
}

/// Command-template substitution from position `i`: each occurrence of the
/// literal `{source}` or `{destination}` is replaced once; replacements are
/// never rescanned.
pub open spec fn spec_substitute_from(
    t: Seq<char>,
    i: int,
    source: Seq<char>,
    destination: Seq<char>,
) -> Seq<char>
    decreases t.len() - i,
    via spec_substitute_from_decreases
{
    if i < 0 || i >= t.len() {
        Seq::<char>::empty()
    } else if lit_at(t, i, "{source}"@) {
        source + spec_substitute_from(t, i + 8, source, destination)
    } else if lit_at(t, i, "{destination}"@) {
        destination + spec_substitute_from(t, i + 13, source, destination)
    } else {
        seq![t[i]] + spec_substitute_from(t, i + 1, source, destination)
    }
}

#[via_fn]
proof fn spec_substitute_from_decreases(
    t: Seq<char>,
    i: int,
    source: Seq<char>,
    destination: Seq<char>,
) {
    reveal_strlit("{source}");
    reveal_strlit("{destination}");
}

fn lit_at_exec(t: &Vec<char>, i: usize, p: &str) -> (r: bool)
    requires
        i <= t@.len(),
    ensures
        r == lit_at(t@, i as int, p@),
{
    let pn = p.unicode_len();
    let n = t.len();
    if n - i < pn {
        return false;
    }
    let mut k: usize = 0;
    while k < pn
        invariant
            k <= pn,
            pn == p@.len(),
            n == t@.len(),
            i + pn <= n,
            forall|j: int| 0 <= j < k ==> t@[i + j] == p@[j],
        decreases pn - k,
    {
        if t[i + k] != p.get_char(k) {
            proof {
                assert(t@.subrange(i as int, i + p@.len())[k as int] != p@[k as int]);
            }
            return false;
        }
        k += 1;
    }
    proof {
        assert(t@.subrange(i as int, i + p@.len()) =~= p@);
    }
    true
}

fn append_all(out: &mut Vec<char>, piece: &Vec<char>)
    ensures
        final(out)@ == old(out)@ + piece@,
{
    let mut k: usize = 0;
    let ghost base = out@;
    while k < piece.len()
        invariant
            k <= piece@.len(),
            out@ == base + piece@.take(k as int),
        decreases piece@.len() - k,
    {
        out.push(piece[k]);
        proof {
            assert(base + piece@.take(k + 1 as int) =~= (base + piece@.take(k as int)).push(
                piece@[k as int],
            ));
        }
        k += 1;
    }
    proof {
        assert(piece@.take(piece@.len() as int) =~= piece@);
        assert(out@ =~= base + piece@);
    }
}

/// Substitutes `{source}` and `{destination}` into an inline command
/// template. Each placeholder is replaced once, left to right, and the
/// substituted text is never rescanned.
pub fn substitute_command(command: &str, source: &str, destination: &str) -> (r: String)
    ensures
        r@ == spec_substitute_from(command@, 0, source@, destination@),
{
    proof {
        reveal_strlit("{source}");
        reveal_strlit("{destination}");
    }
    let t = str_to_chars(command);
    let src_chars = str_to_chars(source);
    let dst_chars = str_to_chars(destination);
    let n = t.len();
    let mut out: Vec<char> = Vec::new();
    let mut i: usize = 0;
    proof {
        assert(Seq::<char>::empty() + spec_substitute_from(t@, 0, source@, destination@)
            =~= spec_substitute_from(t@, 0, source@, destination@));
    }
    while i < n
        invariant
            i <= n,
            n == t@.len(),
            t@ == command@,
            src_chars@ == source@,
            dst_chars@ == destination@,
            "{source}"@.len() == 8,
            "{destination}"@.len() == 13,
            spec_substitute_from(t@, 0, source@, destination@) == out@ + spec_substitute_from(
                t@,
                i as int,
                source@,
                destination@,
            ),
        decreases n - i,
    {
        let ghost before = out@;
        if lit_at_exec(&t, i, "{source}") {
            append_all(&mut out, &src_chars);
            proof {
                assert(out@ + spec_substitute_from(t@, i + 8, source@, destination@) =~= before + (
                source@ + spec_substitute_from(t@, i + 8, source@, destination@)));
            }
            i += 8;
        } else if lit_at_exec(&t, i, "{destination}") {
            append_all(&mut out, &dst_chars);
            proof {
                assert(out@ + spec_substitute_from(t@, i + 13, source@, destination@) =~= before + (
                destination@ + spec_substitute_from(t@, i + 13, source@, destination@)));
            }
            i += 13;
        } else {
            out.push(t[i]);
            proof {
                assert(out@ + spec_substitute_from(t@, i + 1 as int, source@, destination@)
                    =~= before + (seq![t@[i as int]] + spec_substitute_from(
                    t@,
                    i + 1 as int,
                    source@,
                    destination@,
                )));
            }
            i += 1;
        }
    }
    proof {
        assert(spec_substitute_from(t@, n as int, source@, destination@) =~= Seq::<char>::empty());
        assert(out@ + Seq::<char>::empty() =~= out@);
    }
    chars_to_string(&out)
}

} // verus!
