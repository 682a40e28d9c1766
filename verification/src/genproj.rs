//! Synthetic projects for benchmarking. Deterministic for a given seed, with
//! the number of findings that the analysis is expected to produce.

use vstd::prelude::*;
use vstd::string::*;

use crate::text::{chars_of, concat, decimal, write_decimal};

verus! {

// ---------------------------------------------------------------------------
// Random numbers
// ---------------------------------------------------------------------------

/// The multiplier of the generator's output.
pub const MULTIPLIER: u64 = 0x2545F4914F6CDD1D;

/// The state after a step of the xorshift64* generator.
pub open spec fn next_state(x: u64) -> u64 {
    let a = x ^ (x >> 12);
    let b = a ^ (a << 25);
    b ^ (b >> 27)
}

/// The number that a state gives.
pub open spec fn output(x: u64) -> u64 {
    x.wrapping_mul(MULTIPLIER)
}

/// The number below `n` that the step from a state gives.
pub open spec fn drawn(x: u64, n: nat) -> nat {
    output(next_state(x)) as nat % n
}

/// The generator never runs into its fixed point.
pub proof fn law_generator_keeps_going(x: u64)
    requires
        x != 0,
    ensures
        next_state(x) != 0,
{
    let a = x ^ (x >> 12);
    let b = a ^ (a << 25);
    assert(x != 0 ==> (x ^ (x >> 12)) != 0) by (bit_vector);
    assert(a != 0 ==> (a ^ (a << 25)) != 0) by (bit_vector);
    assert(b != 0 ==> (b ^ (b >> 27)) != 0) by (bit_vector);
}

/// An xorshift64* generator.
pub struct Rng(pub u64);

impl Rng {
    pub fn next(&mut self) -> (r: u64)
        ensures
            final(self).0 == next_state(old(self).0),
            r == output(next_state(old(self).0)),
    {
        let mut x: u64 = self.0;
        x = x ^ (x >> 12);
        x = x ^ (x << 25);
        x = x ^ (x >> 27);
        self.0 = x;
        x.wrapping_mul(MULTIPLIER)
    }

    pub fn below(&mut self, n: usize) -> (r: usize)
        requires
            n > 0,
        ensures
            final(self).0 == next_state(old(self).0),
            r == drawn(old(self).0, n as nat),
            r < n,
    {
        (self.next() % n as u64) as usize
    }
}

// ---------------------------------------------------------------------------
// Texts
// ---------------------------------------------------------------------------

/// A template with `@` replaced by the file's number, `#` by the function's
/// and `%` by a type or value.
pub open spec fn expanded(t: Seq<char>, file: nat, func: nat, u: Seq<char>) -> Seq<char>
    decreases t.len(),
{
    if t.len() == 0 {
        Seq::empty()
    } else {
        expanded(t.drop_last(), file, func, u) + (if t.last() == '@' {
            decimal(file)
        } else if t.last() == '#' {
            decimal(func)
        } else if t.last() == '%' {
            u
        } else {
            seq![t.last()]
        })
    }
}

/// The literal of a variant.
pub open spec fn variant(file: nat, v: nat) -> Seq<char> {
    "\"v"@ + decimal(file) + "_"@ + decimal(v) + "\""@
}

/// The union of the first `n` variants.
pub open spec fn variant_union(file: nat, n: nat) -> Seq<char>
    decreases n,
{
    if n == 0 {
        Seq::empty()
    } else if n == 1 {
        variant(file, 0)
    } else {
        variant_union(file, (n - 1) as nat) + " | "@ + variant(file, (n - 1) as nat)
    }
}

/// Calls of a function with each of the first `n` variants.
pub open spec fn variant_calls(file: nat, func: nat, n: nat) -> Seq<char>
    decreases n,
{
    if n == 0 {
        Seq::empty()
    } else {
        variant_calls(file, func, (n - 1) as nat) + expanded(
            "f@_#(%);\n"@,
            file,
            func,
            variant(file, (n - 1) as nat),
        )
    }
}

pub open spec fn plain_decl() -> Seq<char> {
    "export function f@_#(x: U@): void { void x; }\n"@
}

/// The text of a function of the given style, with its calls.
pub open spec fn function_text(file: nat, func: nat, variants: nat, style: nat) -> Seq<char> {
    let none = Seq::<char>::empty();
    if style == 0 {
        // A nested-object parameter that leaves a variant unused at each leaf.
        expanded("export function f@_#(cfg: Cfg@): void { void cfg; }\n"@, file, func, none)
            + expanded(
            "f@_#({ mode: %, opts: { level: 1, deep: { tag: \"x\" } } });\n"@,
            file,
            func,
            variant(file, 0),
        ) + expanded(
            "f@_#({ mode: %, opts: { level: 2, deep: { tag: \"y\" } } });\n"@,
            file,
            func,
            variant(file, 1),
        )
    } else if style == 1 {
        // An escaped function: its unused variants must not be reported.
        expanded(plain_decl(), file, func, none) + expanded(
            "f@_#(%);\n"@,
            file,
            func,
            variant(file, 0),
        ) + expanded("export const ref@_# = f@_#;\n"@, file, func, none)
    } else if style == 2 {
        // A wide argument, which covers everything.
        expanded("declare function get@_#(): U@;\n"@, file, func, none) + expanded(
            plain_decl(),
            file,
            func,
            none,
        ) + expanded("const w@_#: U@ = get@_#();\n"@, file, func, none) + expanded(
            "f@_#(w@_#);\n"@,
            file,
            func,
            none,
        )
    } else if style <= 5 {
        // Every variant is passed.
        expanded(plain_decl(), file, func, none) + variant_calls(file, func, variants)
    } else {
        // One variant is left unused.
        expanded(plain_decl(), file, func, none) + variant_calls(
            file,
            func,
            (variants - 1) as nat,
        )
    }
}

/// The number of findings that a function of the given style gives.
pub open spec fn function_findings(style: nat) -> nat {
    if style == 0 {
        3
    } else if style <= 5 {
        0
    } else {
        1
    }
}

/// What precedes the functions of a file.
pub open spec fn file_head(file: nat, variants: nat) -> Seq<char> {
    let none = Seq::<char>::empty();
    let u = variant_union(file, variants);
    expanded("// generated file @\n"@, file, 0, none) + expanded(
        "export type U@ = %;\n"@,
        file,
        0,
        u,
    ) + expanded(
        "export type Cfg@ = { mode: %; opts: { level: 1 | 2 | 3; deep: { tag: \"x\" | \"y\" | \"z\" } } };\n"@,
        file,
        0,
        u,
    ) + (if file > 0 {
        expanded(
            "import { xf@, type U@ } from \"./file@\";\n"@,
            (file - 1) as nat,
            0,
            none,
        )
    } else {
        none
    }) + expanded("export function xf@(x: U@): void { void x; }\n"@, file, 0, none)
}

/// What follows the functions of a file: a call into the file before it, with
/// an argument that covers everything.
pub open spec fn file_tail(file: nat) -> Seq<char> {
    if file > 0 {
        expanded(
            "xf@(\"v@_0\" as U@);\n"@,
            (file - 1) as nat,
            0,
            Seq::<char>::empty(),
        )
    } else {
        Seq::empty()
    }
}

/// A text with the state of the generator behind it, and its findings.
#[verifier::ext_equal]
pub struct DraftView {
    pub text: Seq<char>,
    pub state: u64,
    pub findings: nat,
}

/// The first `n` functions of a file.
pub open spec fn functions_draft(file: nat, n: nat, variants: nat, state: u64) -> DraftView
    decreases n,
{
    if n == 0 {
        DraftView { text: Seq::empty(), state, findings: 0 }
    } else {
        let before = functions_draft(file, (n - 1) as nat, variants, state);
        let style = drawn(before.state, 10);
        DraftView {
            text: before.text + function_text(file, (n - 1) as nat, variants, style),
            state: next_state(before.state),
            findings: before.findings + function_findings(style),
        }
    }
}

/// A file with `fns` functions.
pub open spec fn file_draft(file: nat, fns: nat, state: u64) -> DraftView {
    let variants = 4 + drawn(state, 5);
    let body = functions_draft(file, fns, variants, next_state(state));
    DraftView {
        text: file_head(file, variants) + body.text + file_tail(file),
        state: body.state,
        findings: body.findings,
    }
}

/// The state of the generator behind the first `n` files.
pub open spec fn state_after(n: nat, fns: nat, seed: u64) -> u64
    decreases n,
{
    if n == 0 {
        seed | 1
    } else {
        file_draft((n - 1) as nat, fns, state_after((n - 1) as nat, fns, seed)).state
    }
}

/// The findings of the first `n` files.
pub open spec fn findings_in(n: nat, fns: nat, seed: u64) -> nat
    decreases n,
{
    if n == 0 {
        0
    } else {
        findings_in((n - 1) as nat, fns, seed) + file_draft(
            (n - 1) as nat,
            fns,
            state_after((n - 1) as nat, fns, seed),
        ).findings
    }
}

/// A generated file: its path below the project, and its text.
#[verifier::ext_equal]
pub struct GeneratedView {
    pub path: Seq<char>,
    pub text: Seq<char>,
}

pub open spec fn generated_file(file: nat, fns: nat, seed: u64) -> GeneratedView {
    GeneratedView {
        path: "src/file"@ + decimal(file) + ".ts"@,
        text: file_draft(file, fns, state_after(file, fns, seed)).text,
    }
}

/// A project is the same for the same seed, and for two seeds that differ in
/// the lowest bit alone: every file, and the number of findings.
pub proof fn law_seed_decides(n: nat, fns: nat, s1: u64, s2: u64)
    requires
        s1 | 1 == s2 | 1,
    ensures
        state_after(n, fns, s1) == state_after(n, fns, s2),
        findings_in(n, fns, s1) == findings_in(n, fns, s2),
        forall|file: nat|
            file <= n ==> (#[trigger] generated_file(file, fns, s1)) == generated_file(
                file,
                fns,
                s2,
            ),
    decreases n,
{
    if n > 0 {
        law_seed_decides((n - 1) as nat, fns, s1, s2);
    }
    assert forall|file: nat| file <= n implies (#[trigger] generated_file(file, fns, s1))
        == generated_file(file, fns, s2) by {
        if file < n {
            assert(file <= n - 1);
        }
    }
}

/// At most three findings come from each function.
pub proof fn law_findings_bounded(n: nat, fns: nat, seed: u64)
    ensures
        findings_in(n, fns, seed) <= 3 * (n * fns),
    decreases n,
{
    if n == 0 {
        assert(0 * fns == 0) by (nonlinear_arith);
    } else {
        let state = state_after((n - 1) as nat, fns, seed);
        law_findings_bounded((n - 1) as nat, fns, seed);
        lemma_functions_bounded(
            (n - 1) as nat,
            fns,
            4 + drawn(state, 5),
            next_state(state),
        );
        assert(n * fns == (n - 1) * fns + fns) by (nonlinear_arith)
            requires
                n > 0,
        ;
    }
}

proof fn lemma_functions_bounded(file: nat, n: nat, variants: nat, state: u64)
    ensures
        functions_draft(file, n, variants, state).findings <= 3 * n,
    decreases n,
{
    if n > 0 {
        lemma_functions_bounded(file, (n - 1) as nat, variants, state);
    }
}

// ---------------------------------------------------------------------------
// Execution
// ---------------------------------------------------------------------------

#[derive(Debug)]
pub struct GeneratedFile {
    pub path: String,
    pub text: String,
}

impl View for GeneratedFile {
    type V = GeneratedView;

    open spec fn view(&self) -> GeneratedView {
        GeneratedView { path: self.path@, text: self.text@ }
    }
}

/// A generated project.
#[derive(Debug)]
pub struct Generated {
    pub files: Vec<GeneratedFile>,
    pub expected_findings: usize,
}

fn expand(out: &mut String, t: &str, file: usize, func: usize, u: &str)
    ensures
        final(out)@ == old(out)@ + expanded(t@, file as nat, func as nat, u@),
{
    let ghost before = out@;
    let c = chars_of(t);
    let file_text = write_decimal(file as u128);
    let func_text = write_decimal(func as u128);
    assert(out@ =~= before + expanded(c@.take(0), file as nat, func as nat, u@));
    let mut i: usize = 0;
    while i < c.len()
        invariant
            i <= c@.len(),
            file_text@ == decimal(file as nat),
            func_text@ == decimal(func as nat),
            out@ == before + expanded(c@.take(i as int), file as nat, func as nat, u@),
        decreases c@.len() - i,
    {
        let x: char = c[i];
        if x == '@' {
            out.append(file_text.as_str());
        } else if x == '#' {
            out.append(func_text.as_str());
        } else if x == '%' {
            out.append(u);
        } else {
            out.push(x);
        }
        proof {
            assert(c@.take(i + 1).drop_last() =~= c@.take(i as int));
            assert(out@ =~= before + expanded(c@.take(i + 1), file as nat, func as nat, u@));
        }
        i += 1;
    }
    assert(c@.take(i as int) =~= c@);
}

fn variant_text(file: usize, v: usize) -> (r: String)
    ensures
        r@ == variant(file as nat, v as nat),
{
    let mut s: String = concat("\"v", write_decimal(file as u128).as_str());
    s.append("_");
    s.append(write_decimal(v as u128).as_str());
    s.append("\"");
    s
}

fn union_text(file: usize, n: usize) -> (r: String)
    ensures
        r@ == variant_union(file as nat, n as nat),
{
    let mut s: String = String::new();
    let mut i: usize = 0;
    while i < n
        invariant
            i <= n,
            s@ == variant_union(file as nat, i as nat),
        decreases n - i,
    {
        if i > 0 {
            s.append(" | ");
        }
        s.append(variant_text(file, i).as_str());
        assert(s@ =~= variant_union(file as nat, (i + 1) as nat));
        i += 1;
    }
    s
}

fn write_calls(out: &mut String, file: usize, func: usize, n: usize)
    ensures
        final(out)@ == old(out)@ + variant_calls(file as nat, func as nat, n as nat),
{
    let ghost before = out@;
    assert(out@ =~= before + variant_calls(file as nat, func as nat, 0));
    let mut i: usize = 0;
    while i < n
        invariant
            i <= n,
            out@ == before + variant_calls(file as nat, func as nat, i as nat),
        decreases n - i,
    {
        expand(out, "f@_#(%);\n", file, func, variant_text(file, i).as_str());
        assert(out@ =~= before + variant_calls(file as nat, func as nat, (i + 1) as nat));
        i += 1;
    }
}

fn write_function(out: &mut String, file: usize, func: usize, variants: usize, style: usize) -> (n:
    usize)
    requires
        variants >= 1,
    ensures
        final(out)@ == old(out)@ + function_text(
            file as nat,
            func as nat,
            variants as nat,
            style as nat,
        ),
        n == function_findings(style as nat),
{
    let ghost before = out@;
    proof {
        reveal_strlit("");
        assert(""@ =~= Seq::<char>::empty());
    }
    if style == 0 {
        expand(out, "export function f@_#(cfg: Cfg@): void { void cfg; }\n", file, func, "");
        expand(
            out,
            "f@_#({ mode: %, opts: { level: 1, deep: { tag: \"x\" } } });\n",
            file,
            func,
            variant_text(file, 0).as_str(),
        );
        expand(
            out,
            "f@_#({ mode: %, opts: { level: 2, deep: { tag: \"y\" } } });\n",
            file,
            func,
            variant_text(file, 1).as_str(),
        );
    } else if style == 1 {
        expand(out, "export function f@_#(x: U@): void { void x; }\n", file, func, "");
        expand(out, "f@_#(%);\n", file, func, variant_text(file, 0).as_str());
        expand(out, "export const ref@_# = f@_#;\n", file, func, "");
    } else if style == 2 {
        expand(out, "declare function get@_#(): U@;\n", file, func, "");
        expand(out, "export function f@_#(x: U@): void { void x; }\n", file, func, "");
        expand(out, "const w@_#: U@ = get@_#();\n", file, func, "");
        expand(out, "f@_#(w@_#);\n", file, func, "");
    } else if style <= 5 {
        expand(out, "export function f@_#(x: U@): void { void x; }\n", file, func, "");
        write_calls(out, file, func, variants);
    } else {
        expand(out, "export function f@_#(x: U@): void { void x; }\n", file, func, "");
        write_calls(out, file, func, variants - 1);
    }
    assert(out@ =~= before + function_text(
        file as nat,
        func as nat,
        variants as nat,
        style as nat,
    ));
    if style == 0 {
        3
    } else if style <= 5 {
        0
    } else {
        1
    }
}

fn write_head(file: usize, variants: usize) -> (s: String)
    ensures
        s@ == file_head(file as nat, variants as nat),
{
    let mut s: String = String::new();
    proof {
        reveal_strlit("");
        assert(""@ =~= Seq::<char>::empty());
    }
    let u = union_text(file, variants);
    expand(&mut s, "// generated file @\n", file, 0, "");
    expand(&mut s, "export type U@ = %;\n", file, 0, u.as_str());
    expand(
        &mut s,
        "export type Cfg@ = { mode: %; opts: { level: 1 | 2 | 3; deep: { tag: \"x\" | \"y\" | \"z\" } } };\n",
        file,
        0,
        u.as_str(),
    );
    if file > 0 {
        expand(&mut s, "import { xf@, type U@ } from \"./file@\";\n", file - 1, 0, "");
    }
    expand(&mut s, "export function xf@(x: U@): void { void x; }\n", file, 0, "");
    assert(s@ =~= file_head(file as nat, variants as nat));
    s
}

/// Generates the files of a project.
pub fn generate(files: usize, fns_per_file: usize, seed: u64) -> (r: Generated)
    requires
        3 * (files * fns_per_file) <= usize::MAX,
    ensures
        r.files@.len() == files,
        forall|i: int|
            0 <= i < files ==> (#[trigger] r.files@[i])@ == generated_file(
                i as nat,
                fns_per_file as nat,
                seed,
            ),
        r.expected_findings == findings_in(files as nat, fns_per_file as nat, seed),
{
    let mut rng = Rng(seed | 1);
    let mut out: Vec<GeneratedFile> = Vec::new();
    let mut expected: usize = 0;
    let ghost fns = fns_per_file as nat;
    let mut file: usize = 0;
    while file < files
        invariant
            file <= files,
            fns == fns_per_file as nat,
            3 * (files * fns_per_file) <= usize::MAX,
            rng.0 == state_after(file as nat, fns, seed),
            expected == findings_in(file as nat, fns, seed),
            out@.len() == file,
            forall|i: int|
                0 <= i < file ==> (#[trigger] out@[i])@ == generated_file(i as nat, fns, seed),
        decreases files - file,
    {
        let ghost start = rng.0;
        let variants: usize = 4 + rng.below(5);
        let ghost state = rng.0;
        let mut text: String = write_head(file, variants);
        let ghost head = text@;
        let ghost so_far = expected as nat;
        proof {
            law_findings_bounded(file as nat + 1, fns, seed);
            assert((file + 1) * fns <= files * fns) by (nonlinear_arith)
                requires
                    file + 1 <= files,
            ;
            assert(findings_in((file + 1) as nat, fns, seed) == so_far + functions_draft(
                file as nat,
                fns,
                variants as nat,
                state,
            ).findings);
        }
        assert(text@ =~= head + functions_draft(file as nat, 0, variants as nat, state).text);
        let mut func: usize = 0;
        while func < fns_per_file
            invariant
                func <= fns_per_file,
                4 <= variants <= 8,
                fns == fns_per_file as nat,
                so_far + functions_draft(file as nat, fns, variants as nat, state).findings
                    <= usize::MAX,
                rng.0 == functions_draft(file as nat, func as nat, variants as nat, state).state,
                text@ == head + functions_draft(
                    file as nat,
                    func as nat,
                    variants as nat,
                    state,
                ).text,
                expected == so_far + functions_draft(
                    file as nat,
                    func as nat,
                    variants as nat,
                    state,
                ).findings,
            decreases fns_per_file - func,
        {
            proof {
                lemma_findings_grow(
                    file as nat,
                    (func + 1) as nat,
                    fns,
                    variants as nat,
                    state,
                );
            }
            let style: usize = rng.below(10);
            let n: usize = write_function(&mut text, file, func, variants, style);
            expected = expected + n;
            proof {
                assert(text@ =~= head + functions_draft(
                    file as nat,
                    (func + 1) as nat,
                    variants as nat,
                    state,
                ).text);
            }
            func += 1;
        }
        if file > 0 {
            proof {
                reveal_strlit("");
                assert(""@ =~= Seq::<char>::empty());
            }
            expand(&mut text, "xf@(\"v@_0\" as U@);\n", file - 1, 0, "");
        }
        let mut path: String = concat("src/file", write_decimal(file as u128).as_str());
        path.append(".ts");
        let f = GeneratedFile { path, text };
        proof {
            assert(f@.text =~= file_draft(file as nat, fns, start).text);
            assert(f@ =~= generated_file(file as nat, fns, seed));
        }
        out.push(f);
        file += 1;
    }
    Generated { files: out, expected_findings: expected }
}

proof fn lemma_findings_grow(file: nat, a: nat, b: nat, variants: nat, state: u64)
    requires
        a <= b,
    ensures
        functions_draft(file, a, variants, state).findings <= functions_draft(
            file,
            b,
            variants,
            state,
        ).findings,
    decreases b,
{
    if a < b {
        lemma_findings_grow(file, a, (b - 1) as nat, variants, state);
    }
}

} // verus!
