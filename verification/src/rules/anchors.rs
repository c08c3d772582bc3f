//! Anchors and aliases rule.

use vstd::prelude::*;
use crate::diagnostic::{
    Diagnostic, Location, Severity, SpecDiagnostic, diags_view, lemma_diags_view_push, plain_diag,
    sort_by_location, sort_diagnostics,
};
use crate::rule::{Rule, RuleConfig, RuleContext, cfg_bool, cfg_of, lemma_context_bounds, opt_bool};
use crate::text::{
    byte_offset, chars_to_string, eq_chars, is_alphanumeric, lemma_run_end,
    lemma_utf8_len_take, lemma_utf8_len_take_ge, max_text_len, push_all, push_str, run_end,
    slice_to_vec, split_lines, unicode_alphanumeric, utf8_len,
};

verus! {

pub struct Anchors {
    pub forbid_undeclared_aliases: bool,
    pub forbid_duplicated_anchors: bool,
    pub forbid_unused_anchors: bool,
}

impl Default for Anchors {
    fn default() -> (r: Self)
        ensures
            r.forbid_undeclared_aliases,
            r.forbid_duplicated_anchors,
            r.forbid_unused_anchors,
    {
        Self {
            forbid_undeclared_aliases: true,
            forbid_duplicated_anchors: true,
            forbid_unused_anchors: true,
        }
    }
}

/// Characters that continue an anchor or alias name.
pub open spec fn name_pred() -> spec_fn(char) -> bool {
    |c: char| unicode_alphanumeric(c) || c == '_' || c == '-'
}

/// The length `m` of the prefix of `s` that holds exactly `cnt` bytes,
/// searching from `m`.
pub open spec fn byte_cut(s: Seq<char>, m: int, cnt: int) -> Option<int>
    decreases s.len() - m,
{
    if m < 0 || m > s.len() {
        None
    } else if utf8_len(s.take(m)) == cnt {
        Some(m)
    } else if utf8_len(s.take(m)) > cnt || m == s.len() {
        None
    } else {
        byte_cut(s, m + 1, cnt)
    }
}

/// An anchor (`&name`) or alias (`*name`) occurrence. The rule reads the
/// name as the bytes that follow the indicator, as many as there are name
/// characters; `cut` says that those bytes end on a character boundary.
pub struct AnchorEvent {
    pub is_anchor: bool,
    pub cut: bool,
    pub name: Seq<char>,
    pub loc: Location,
}

/// The occurrences found in `line` (line `n`) from character `i`.
pub open spec fn anchor_scan(n: int, line: Seq<char>, i: int, in_quote: bool, q: char) -> Seq<AnchorEvent>
    decreases line.len() - i,
{
    if i < 0 || i >= line.len() {
        seq![]
    } else {
        let c = line[i];
        if (c == '"' || c == '\'') && !in_quote {
            anchor_scan(n, line, i + 1, true, c)
        } else if c == q && in_quote {
            anchor_scan(n, line, i + 1, false, q)
        } else if (c == '&' || c == '*') && !in_quote {
            let e = run_end(line, i + 1, name_pred());
            let cnt = e - (i + 1);
            let next = if i < e && e <= line.len() {
                e
            } else {
                i + 1
            };
            let word = line.subrange(i + 1, e);
            let cut = byte_cut(word, 0, cnt);
            let ev = AnchorEvent {
                is_anchor: c == '&',
                cut: cut is Some,
                name: match cut {
                    Some(m) => word.take(m),
                    None => seq![],
                },
                loc: Location { line: n as usize, column: (utf8_len(line.take(i)) + 1) as usize },
            };
            (if cnt > 0 {
                seq![ev]
            } else {
                seq![]
            }) + anchor_scan(n, line, next, in_quote, q)
        } else {
            anchor_scan(n, line, i + 1, in_quote, q)
        }
    }
}

/// All occurrences in the first `k` lines.
pub open spec fn anchor_events(lines: Seq<Seq<char>>, k: int) -> Seq<AnchorEvent>
    decreases k,
{
    if k <= 0 {
        seq![]
    } else {
        anchor_events(lines, k - 1) + anchor_scan(k, lines[k - 1], 0, false, ' ')
    }
}

pub open spec fn names_contain(s: Seq<(Seq<char>, Location)>, name: Seq<char>) -> bool {
    exists|j: int| 0 <= j < s.len() && (#[trigger] s[j]).0 == name
}

pub open spec fn quoted_msg(prefix: Seq<char>, name: Seq<char>) -> Seq<char> {
    prefix + name + "\""@
}

/// After the first `k` occurrences: declared anchors (first occurrence),
/// aliases, and the duplicated-anchor diagnostics.
pub open spec fn anchors_fold(evs: Seq<AnchorEvent>, k: int, forbid_dup: bool) -> (
    Seq<(Seq<char>, Location)>,
    Seq<(Seq<char>, Location)>,
    Seq<SpecDiagnostic>,
)
    decreases k,
{
    if k <= 0 {
        (seq![], seq![], seq![])
    } else {
        let (anchors, aliases, diags) = anchors_fold(evs, k - 1, forbid_dup);
        let ev = evs[k - 1];
        if ev.is_anchor {
            if names_contain(anchors, ev.name) {
                (
                    anchors,
                    aliases,
                    if forbid_dup {
                        diags.push(
                            plain_diag(
                                "anchors"@,
                                Severity::Error,
                                quoted_msg("found duplicated anchor \""@, ev.name),
                                ev.loc,
                            ),
                        )
                    } else {
                        diags
                    },
                )
            } else {
                (anchors.push((ev.name, ev.loc)), aliases, diags)
            }
        } else {
            (anchors, aliases.push((ev.name, ev.loc)), diags)
        }
    }
}

/// Undeclared-alias diagnostics among the first `k` aliases.
pub open spec fn undeclared_diags(
    anchors: Seq<(Seq<char>, Location)>,
    aliases: Seq<(Seq<char>, Location)>,
    k: int,
) -> Seq<SpecDiagnostic>
    decreases k,
{
    if k <= 0 {
        seq![]
    } else {
        let a = aliases[k - 1];
        undeclared_diags(anchors, aliases, k - 1) + if !names_contain(anchors, a.0) {
            seq![
                plain_diag(
                    "anchors"@,
                    Severity::Error,
                    quoted_msg("found undeclared alias \""@, a.0),
                    a.1,
                ),
            ]
        } else {
            seq![]
        }
    }
}

/// Unused-anchor diagnostics among the first `k` anchors.
pub open spec fn unused_diags(
    anchors: Seq<(Seq<char>, Location)>,
    aliases: Seq<(Seq<char>, Location)>,
    k: int,
) -> Seq<SpecDiagnostic>
    decreases k,
{
    if k <= 0 {
        seq![]
    } else {
        let a = anchors[k - 1];
        unused_diags(anchors, aliases, k - 1) + if !names_contain(aliases, a.0) {
            seq![
                plain_diag("anchors"@, Severity::Error, quoted_msg("found unused anchor \""@, a.0), a.1),
            ]
        } else {
            seq![]
        }
    }
}

pub open spec fn anchor_opts(rule: &Anchors, config: Option<RuleConfig>) -> (bool, bool, bool) {
    (
        opt_bool(config, "forbid-undeclared-aliases"@, rule.forbid_undeclared_aliases),
        opt_bool(config, "forbid-duplicated-anchors"@, rule.forbid_duplicated_anchors),
        opt_bool(config, "forbid-unused-anchors"@, rule.forbid_unused_anchors),
    )
}

pub open spec fn anchors_spec(content: Seq<char>, o: (bool, bool, bool)) -> Seq<SpecDiagnostic> {
    let lines = split_lines(content);
    let evs = anchor_events(lines, lines.len() as int);
    let (anchors, aliases, dups) = anchors_fold(evs, evs.len() as int, o.1);
    sort_by_location(
        dups + (if o.0 {
            undeclared_diags(anchors, aliases, aliases.len() as int)
        } else {
            seq![]
        }) + (if o.2 {
            unused_diags(anchors, aliases, anchors.len() as int)
        } else {
            seq![]
        }),
    )
}

/// Every name read by the rule ends on a character boundary.
pub open spec fn anchors_accept(content: Seq<char>) -> bool {
    let lines = split_lines(content);
    let evs = anchor_events(lines, lines.len() as int);
    forall|j: int| 0 <= j < evs.len() ==> (#[trigger] evs[j]).cut
}

/// An occurrence as the checker holds it.
pub type Occurrence = (Vec<char>, Location);

pub open spec fn occ_view(v: Seq<Occurrence>) -> Seq<(Seq<char>, Location)> {
    v.map_values(|o: Occurrence| (o.0@, o.1))
}

pub open spec fn ev_view(v: Seq<(bool, Occurrence)>) -> Seq<(bool, Seq<char>, Location)> {
    v.map_values(|o: (bool, Occurrence)| (o.0, o.1.0@, o.1.1))
}

pub open spec fn events_core(evs: Seq<AnchorEvent>) -> Seq<(bool, Seq<char>, Location)> {
    evs.map_values(|e: AnchorEvent| (e.is_anchor, e.name, e.loc))
}

/// The `m` with `utf8_len(s[..m]) == cnt`, if any.
fn byte_cut_exec(s: &[char], cnt: usize) -> (r: Option<usize>)
    requires
        s@.len() <= max_text_len(),
    ensures
        match r {
            Some(m) => byte_cut(s@, 0, cnt as int) == Some(m as int) && m <= s@.len(),
            None => byte_cut(s@, 0, cnt as int) is None,
        },
{
    let mut m: usize = 0;
    let mut acc: usize = 0;
    while m <= s.len()
        invariant
            m <= s@.len() + 1,
            s@.len() <= max_text_len(),
            m <= s@.len() ==> acc == utf8_len(s@.take(m as int)),
            acc <= 4 * m,
            byte_cut(s@, m as int, cnt as int) == byte_cut(s@, 0, cnt as int),
        decreases s@.len() + 1 - m,
    {
        if acc == cnt {
            return Some(m);
        }
        if acc > cnt || m == s.len() {
            return None;
        }
        proof {
            lemma_utf8_len_take(s@, m as int);
        }
        acc = acc + crate::text::char_len_exec(s[m]);
        m = m + 1;
    }
    None
}

fn is_name_char(c: char) -> (r: bool)
    ensures
        r == name_pred()(c),
{
    is_alphanumeric(c) || c == '_' || c == '-'
}

fn anchor_line_events(n: usize, line: &[char]) -> (r: Vec<(bool, Occurrence)>)
    requires
        1 <= n <= max_text_len(),
        line@.len() <= max_text_len(),
        forall|j: int|
            0 <= j < anchor_scan(n as int, line@, 0, false, ' ').len() ==> (#[trigger] anchor_scan(
                n as int,
                line@,
                0,
                false,
                ' ',
            )[j]).cut,
    ensures
        ev_view(r@) == events_core(anchor_scan(n as int, line@, 0, false, ' ')),
{
    let ghost all = anchor_scan(n as int, line@, 0, false, ' ');
    let mut out: Vec<(bool, Occurrence)> = Vec::new();
    let mut in_quote = false;
    let mut q = ' ';
    let mut i: usize = 0;
    let ghost mut pre: Seq<AnchorEvent> = seq![];
    assert(pre + all =~= all);
    while i < line.len()
        invariant
            i <= line@.len() <= max_text_len(),
            1 <= n <= max_text_len(),
            all == anchor_scan(n as int, line@, 0, false, ' '),
            pre + anchor_scan(n as int, line@, i as int, in_quote, q) == all,
            ev_view(out@) == events_core(pre),
            forall|j: int| 0 <= j < all.len() ==> (#[trigger] all[j]).cut,
        decreases line@.len() - i,
    {
        let c = line[i];
        if (c == '"' || c == '\'') && !in_quote {
            in_quote = true;
            q = c;
            i = i + 1;
        } else if c == q && in_quote {
            in_quote = false;
            i = i + 1;
        } else if (c == '&' || c == '*') && !in_quote {
            let mut e = i + 1;
            while e < line.len() && is_name_char(line[e])
                invariant
                    i + 1 <= e <= line@.len(),
                    run_end(line@, e as int, name_pred()) == run_end(line@, i + 1, name_pred()),
                decreases line@.len() - e,
            {
                e = e + 1;
            }
            let cnt = e - (i + 1);
            let ghost rest = anchor_scan(n as int, line@, e as int, in_quote, q);
            if cnt > 0 {
                let word = slice_to_vec(line, i + 1, e);
                let pos = byte_offset(line, i);
                proof {
                    lemma_utf8_len_take_ge(line@, i as int);
                }
                let cut = byte_cut_exec(word.as_slice(), cnt);
                let ghost ev = anchor_scan(n as int, line@, i as int, in_quote, q)[0];
                proof {
                    assert(anchor_scan(n as int, line@, i as int, in_quote, q) == seq![ev] + rest);
                    assert(all[pre.len() as int] == ev);
                }
                match cut {
                    Some(m) => {
                        let name = slice_to_vec(word.as_slice(), 0, m);
                        let ghost before = ev_view(out@);
                        let at = Location::new(n, pos + 1);
                        let ghost nv = name@;
                        out.push((c == '&', (name, at)));
                        proof {
                            assert(nv == word@.take(m as int));
                            assert(ev_view(out@) =~= before.push((c == '&', nv, at)));
                            assert(events_core(pre.push(ev)) =~= events_core(pre).push((ev.is_anchor, ev.name, ev.loc)));
                            assert(pre.push(ev) + rest =~= pre + (seq![ev] + rest));
                            pre = pre.push(ev);
                        }
                    },
                    None => {
                        proof {
                            assert(!ev.cut);
                        }
                    },
                }
            } else {
                proof {
                    assert(anchor_scan(n as int, line@, i as int, in_quote, q) =~= rest);
                }
            }
            i = e;
        } else {
            i = i + 1;
        }
    }
    proof {
        assert(pre =~= pre + Seq::<AnchorEvent>::empty());
    }
    out
}

fn find_name(v: &Vec<Occurrence>, name: &Vec<char>) -> (r: bool)
    ensures
        r == names_contain(occ_view(v@), name@),
{
    let mut i: usize = 0;
    while i < v.len()
        invariant
            i <= v@.len(),
            forall|j: int| 0 <= j < i ==> occ_view(v@)[j].0 != name@,
        decreases v@.len() - i,
    {
        if eq_chars(v[i].0.as_slice(), name.as_slice()) {
            assert(occ_view(v@)[i as int].0 == name@);
            return true;
        }
        i = i + 1;
    }
    false
}

fn quoted_message(prefix: &str, name: &Vec<char>) -> (r: String)
    ensures
        r@ == quoted_msg(prefix@, name@),
{
    let mut m: Vec<char> = Vec::new();
    push_str(&mut m, prefix);
    push_all(&mut m, name.as_slice());
    push_str(&mut m, "\"");
    chars_to_string(m.as_slice())
}

impl Rule for Anchors {
    open spec fn spec_name(&self) -> Seq<char> {
        "anchors"@
    }

    open spec fn spec_check(&self, content: Seq<char>, config: Option<RuleConfig>) -> Seq<SpecDiagnostic> {
        anchors_spec(content, anchor_opts(self, config))
    }

    open spec fn spec_accepts(&self, content: Seq<char>, config: Option<RuleConfig>) -> bool {
        anchors_accept(content)
    }

    open spec fn spec_result(&self, content: Seq<char>, config: Option<RuleConfig>, out: Seq<SpecDiagnostic>) -> bool {
        out == self.spec_check(content, config)
    }

    open spec fn spec_fixable(&self) -> bool {
        false
    }

    fn name(&self) -> (r: &'static str) {
        "anchors"
    }

    open spec fn spec_description(&self) -> Seq<char> {
        "Check anchors and aliases"@
    }

    fn description(&self) -> &'static str {
        "Check anchors and aliases"
    }

    fn check(&self, ctx: &RuleContext, config: Option<&RuleConfig>) -> (r: Vec<Diagnostic>) {
        proof {
            lemma_context_bounds(ctx);
        }
        let o = (
            cfg_bool(config, "forbid-undeclared-aliases", self.forbid_undeclared_aliases),
            cfg_bool(config, "forbid-duplicated-anchors", self.forbid_duplicated_anchors),
            cfg_bool(config, "forbid-unused-anchors", self.forbid_unused_anchors),
        );
        let ghost lines = ctx.lines_spec();
        let ghost evs = anchor_events(lines, lines.len() as int);
        // Collect all occurrences, in order.
        let mut events: Vec<(bool, Occurrence)> = Vec::new();
        let mut li: usize = 0;
        while li < ctx.lines.len()
            invariant
                ctx.wf(),
                lines == ctx.lines_spec(),
                evs == anchor_events(lines, lines.len() as int),
                anchors_accept(ctx.content@),
                li <= lines.len() <= ctx.content@.len(),
                forall|k: int| 0 <= k < lines.len() ==> (#[trigger] lines[k]).len() <= ctx.content@.len(),
                ev_view(events@) == events_core(anchor_events(lines, li as int)),
            decreases lines.len() - li,
        {
            assert(lines[li as int] == ctx.lines@[li as int]@);
            proof {
                lemma_events_prefix(lines, li + 1, lines.len() as int);
                let here = anchor_scan(li + 1, lines[li as int], 0, false, ' ');
                assert forall|j: int| 0 <= j < here.len() implies (#[trigger] here[j]).cut by {
                    let pre = anchor_events(lines, li as int);
                    assert(anchor_events(lines, li + 1) == pre + here);
                    assert(anchor_events(lines, li + 1)[pre.len() + j] == here[j]);
                    assert(evs[pre.len() + j] == here[j]);
                }
            }
            let line_events = anchor_line_events(li + 1, ctx.lines[li].as_slice());
            let ghost before = ev_view(events@);
            let mut le = line_events;
            let ghost le_v = ev_view(le@);
            events.append(&mut le);
            proof {
                assert(ev_view(events@) =~= before + le_v);
                let pre = anchor_events(lines, li as int);
                let here = anchor_scan(li + 1, lines[li as int], 0, false, ' ');
                assert(events_core(pre + here) =~= events_core(pre) + events_core(here));
            }
            li = li + 1;
        }
        // Declared anchors, aliases, duplicated anchors.
        let mut anchors: Vec<Occurrence> = Vec::new();
        let mut aliases: Vec<Occurrence> = Vec::new();
        let mut dups: Vec<Diagnostic> = Vec::new();
        let mut k: usize = 0;
        assert(ev_view(events@).len() == events@.len());
        assert(events_core(evs).len() == evs.len());
        while k < events.len()
            invariant
                k <= events@.len(),
                events@.len() == evs.len(),
                ev_view(events@) == events_core(evs),
                anchors_fold(evs, k as int, o.1) == (occ_view(anchors@), occ_view(aliases@), diags_view(dups@)),
            decreases events@.len() - k,
        {
            assert(ev_view(events@)[k as int] == events_core(evs)[k as int]);
            assert(ev_view(events@)[k as int] == (events@[k as int].0, events@[k as int].1.0@, events@[k as int].1.1));
            assert(events_core(evs)[k as int] == (evs[k as int].is_anchor, evs[k as int].name, evs[k as int].loc));
            let is_anchor = events[k].0;
            let name = events[k].1.0.clone();
            let at = events[k].1.1;
            assert(name@ == events@[k as int].1.0@);
            assert(name@ == evs[k as int].name);
            if is_anchor {
                if find_name(&anchors, &name) {
                    if o.1 {
                        let m = quoted_message("found duplicated anchor \"", &name);
                        let d = Diagnostic::error("anchors", m.as_str(), at);
                        let ghost b = dups@;
                        dups.push(d);
                        proof {
                            lemma_diags_view_push(b, d);
                        }
                    }
                } else {
                    let ghost b = occ_view(anchors@);
                    anchors.push((name, at));
                    assert(occ_view(anchors@) =~= b.push((evs[k as int].name, at)));
                }
            } else {
                let ghost b = occ_view(aliases@);
                aliases.push((name, at));
                assert(occ_view(aliases@) =~= b.push((evs[k as int].name, at)));
            }
            k = k + 1;
        }
        assert(evs.len() == events@.len());
        let mut all = dups;
        if o.0 {
            let mut j: usize = 0;
            let ghost base = diags_view(all@);
            while j < aliases.len()
                invariant
                    j <= aliases@.len(),
                    diags_view(all@) == base + undeclared_diags(occ_view(anchors@), occ_view(aliases@), j as int),
                decreases aliases@.len() - j,
            {
                let ghost b = all@;
                if !find_name(&anchors, &aliases[j].0) {
                    let m = quoted_message("found undeclared alias \"", &aliases[j].0);
                    let d = Diagnostic::error("anchors", m.as_str(), aliases[j].1);
                    all.push(d);
                    proof {
                        lemma_diags_view_push(b, d);
                    }
                }
                j = j + 1;
                assert(diags_view(all@) =~= base + undeclared_diags(occ_view(anchors@), occ_view(aliases@), j as int));
            }
        }
        let ghost with_undeclared = diags_view(all@);
        if o.2 {
            let mut j: usize = 0;
            while j < anchors.len()
                invariant
                    j <= anchors@.len(),
                    diags_view(all@) == with_undeclared + unused_diags(occ_view(anchors@), occ_view(aliases@), j as int),
                decreases anchors@.len() - j,
            {
                let ghost b = all@;
                if !find_name(&aliases, &anchors[j].0) {
                    let m = quoted_message("found unused anchor \"", &anchors[j].0);
                    let d = Diagnostic::error("anchors", m.as_str(), anchors[j].1);
                    all.push(d);
                    proof {
                        lemma_diags_view_push(b, d);
                    }
                }
                j = j + 1;
                assert(diags_view(all@) =~= with_undeclared + unused_diags(occ_view(anchors@), occ_view(aliases@), j as int));
            }
        }
        assert(diags_view(all@) =~= anchors_fold(evs, evs.len() as int, o.1).2 + (if o.0 {
            undeclared_diags(occ_view(anchors@), occ_view(aliases@), aliases@.len() as int)
        } else {
            seq![]
        }) + (if o.2 {
            unused_diags(occ_view(anchors@), occ_view(aliases@), anchors@.len() as int)
        } else {
            seq![]
        }));
        sort_diagnostics(all)
    }

    fn is_fixable(&self) -> (r: bool) {
        false
    }
}

/// The occurrences of the first `a` lines begin those of the first `b`.
proof fn lemma_events_prefix(lines: Seq<Seq<char>>, a: int, b: int)
    requires
        0 <= a <= b,
    ensures
        anchor_events(lines, a).len() <= anchor_events(lines, b).len(),
        forall|j: int|
            0 <= j < anchor_events(lines, a).len() ==> anchor_events(lines, b)[j] == anchor_events(
                lines,
                a,
            )[j],
    decreases b - a,
{
    if a < b {
        lemma_events_prefix(lines, a, b - 1);
    }
}

/// Whether every occurrence on line `line` (line `n`) has a name that the
/// rule can cut out.
fn line_cuts_ok(n: usize, line: &[char]) -> (r: bool)
    requires
        1 <= n <= max_text_len(),
        line@.len() <= max_text_len(),
    ensures
        r == forall|j: int|
            0 <= j < anchor_scan(n as int, line@, 0, false, ' ').len() ==> (#[trigger] anchor_scan(
                n as int,
                line@,
                0,
                false,
                ' ',
            )[j]).cut,
{
    let ghost all = anchor_scan(n as int, line@, 0, false, ' ');
    let mut in_quote = false;
    let mut q = ' ';
    let mut i: usize = 0;
    let ghost mut pre: Seq<AnchorEvent> = seq![];
    assert(pre + all =~= all);
    while i < line.len()
        invariant
            i <= line@.len() <= max_text_len(),
            1 <= n <= max_text_len(),
            all == anchor_scan(n as int, line@, 0, false, ' '),
            pre + anchor_scan(n as int, line@, i as int, in_quote, q) == all,
            forall|j: int| 0 <= j < pre.len() ==> (#[trigger] pre[j]).cut,
        decreases line@.len() - i,
    {
        let c = line[i];
        if (c == '"' || c == '\'') && !in_quote {
            in_quote = true;
            q = c;
            i = i + 1;
        } else if c == q && in_quote {
            in_quote = false;
            i = i + 1;
        } else if (c == '&' || c == '*') && !in_quote {
            let mut e = i + 1;
            while e < line.len() && is_name_char(line[e])
                invariant
                    i + 1 <= e <= line@.len(),
                    run_end(line@, e as int, name_pred()) == run_end(line@, i + 1, name_pred()),
                decreases line@.len() - e,
            {
                e = e + 1;
            }
            let cnt = e - (i + 1);
            let ghost rest = anchor_scan(n as int, line@, e as int, in_quote, q);
            if cnt > 0 {
                let word = slice_to_vec(line, i + 1, e);
                let cut = byte_cut_exec(word.as_slice(), cnt);
                let ghost ev = anchor_scan(n as int, line@, i as int, in_quote, q)[0];
                proof {
                    assert(anchor_scan(n as int, line@, i as int, in_quote, q) == seq![ev] + rest);
                    assert(all[pre.len() as int] == ev);
                }
                match cut {
                    Some(_) => {
                        proof {
                            assert(pre.push(ev) + rest =~= pre + (seq![ev] + rest));
                            pre = pre.push(ev);
                        }
                    },
                    None => {
                        proof {
                            assert(!all[pre.len() as int].cut);
                        }
                        return false;
                    },
                }
            } else {
                proof {
                    assert(anchor_scan(n as int, line@, i as int, in_quote, q) =~= rest);
                }
            }
            i = e;
        } else {
            i = i + 1;
        }
    }
    proof {
        assert(pre =~= all);
    }
    true
}

impl Anchors {
    /// Whether the rule can check `ctx`: every anchor and alias name can be
    /// cut out of its line.
    pub fn accepts(&self, ctx: &RuleContext, config: Option<&RuleConfig>) -> (r: bool)
        requires
            ctx.wf(),
        ensures
            r == self.spec_accepts(ctx.content@, cfg_of(config)),
    {
        proof {
            lemma_context_bounds(ctx);
        }
        let ghost lines = ctx.lines_spec();
        let ghost evs = anchor_events(lines, lines.len() as int);
        let mut li: usize = 0;
        while li < ctx.lines.len()
            invariant
                ctx.wf(),
                lines == ctx.lines_spec(),
                evs == anchor_events(lines, lines.len() as int),
                li <= lines.len() <= ctx.content@.len(),
                forall|k: int| 0 <= k < lines.len() ==> (#[trigger] lines[k]).len() <= ctx.content@.len(),
                forall|j: int| 0 <= j < anchor_events(lines, li as int).len() ==> (#[trigger] anchor_events(
                    lines,
                    li as int,
                )[j]).cut,
            decreases lines.len() - li,
        {
            assert(lines[li as int] == ctx.lines@[li as int]@);
            let ok = line_cuts_ok(li + 1, ctx.lines[li].as_slice());
            let ghost pre = anchor_events(lines, li as int);
            let ghost here = anchor_scan(li + 1, lines[li as int], 0, false, ' ');
            assert(anchor_events(lines, li + 1) == pre + here);
            if !ok {
                proof {
                    let j = choose|j: int| 0 <= j < here.len() && !(#[trigger] here[j]).cut;
                    lemma_events_prefix(lines, li + 1, lines.len() as int);
                    assert(anchor_events(lines, li + 1)[pre.len() + j] == here[j]);
                    assert(!evs[pre.len() + j].cut);
                }
                return false;
            }
            proof {
                assert forall|j: int| 0 <= j < anchor_events(lines, li + 1).len() implies (#[trigger] anchor_events(
                    lines,
                    li + 1,
                )[j]).cut by {
                    if j < pre.len() {
                        assert(anchor_events(lines, li + 1)[j] == pre[j]);
                    } else {
                        assert(anchor_events(lines, li + 1)[j] == here[j - pre.len()]);
                    }
                }
            }
            li = li + 1;
        }
        true
    }
}

} // verus!
