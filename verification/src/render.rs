//! The human rendering of a report, for a terminal.

use vstd::prelude::*;

use crate::report::{
    counts_view, entry_view, finding_views, CheckStatus, EntryRef, EntryRefView, Finding, FindingView, Level,
    Outcome, Report, Severity,
};
use crate::text::{decimal, join, push_decimal, repeat_char};

verus! {

/// `s` in the ANSI style `code` when styling is on, else `s` itself.
pub open spec fn paint(on: bool, code: Seq<char>, s: Seq<char>) -> Seq<char> {
    if on {
        "\x1b["@ + code + "m"@ + s + "\x1b[0m"@
    } else {
        s
    }
}

/// `s` padded on the right with `fill` to `width` characters; longer text is
/// left as it is.
pub open spec fn pad_right(s: Seq<char>, fill: char, width: nat) -> Seq<char> {
    if s.len() < width {
        s + repeat_char(fill, (width - s.len()) as nat)
    } else {
        s
    }
}

/// `"<n> <noun>"`, with the noun in the plural unless `n` is one.
pub open spec fn counted(n: nat, noun: Seq<char>) -> Seq<char> {
    decimal(n) + " "@ + noun + if n == 1 { Seq::empty() } else { "s"@ }
}

/// `"label "` padded with dots to a fixed column.
pub open spec fn dotted_text(label: Seq<char>) -> Seq<char> {
    pad_right(label + " "@, '.', 23)
}

pub open spec fn status_text(s: CheckStatus, on: bool) -> Seq<char> {
    match s {
        CheckStatus::Pass => paint(on, "32"@, "pass"@),
        CheckStatus::Fail => paint(on, "31"@, "FAIL"@),
        CheckStatus::Skipped => paint(on, "2"@, "skipped"@),
    }
}

pub open spec fn sev_text(s: Severity, on: bool) -> Seq<char> {
    match s {
        Severity::Error => paint(on, "31"@, "error  "@),
        Severity::Warning => paint(on, "33"@, "warning"@),
        Severity::Info => paint(on, "34"@, "info   "@),
    }
}

pub open spec fn level_name(l: Level) -> Seq<char> {
    match l {
        Level::Core => "core"@,
        Level::Strict => "strict"@,
        Level::Profile => "profile"@,
    }
}

/// `"<n> <type>"` for each counted type, joined with `", "`.
pub open spec fn by_type_desc(bt: Seq<(Seq<char>, nat)>) -> Seq<char> {
    join(bt.map_values(|p: (Seq<char>, nat)| decimal(p.1) + " "@ + p.0), ", "@)
}

/// Where a finding is: `Type/id (entry i)`, `entry i`, or `Bundle`.
pub open spec fn loc_text(e: Option<EntryRefView>) -> Seq<char> {
    match e {
        Some(er) => if er.resource_type.len() > 0 {
            er.resource_type + "/"@ + er.id + " (entry "@ + decimal(er.index) + ")"@
        } else {
            "entry "@ + decimal(er.index)
        },
        None => "Bundle"@,
    }
}

/// The three lines of one finding.
pub open spec fn finding_text(f: FindingView, on: bool) -> Seq<char> {
    "  "@ + sev_text(f.severity, on) + "  "@ + paint(on, "1"@, pad_right(f.code, ' ', 5)) + "  "@ + loc_text(
        f.entry,
    ) + "\n"@ + "        "@ + f.message + "\n"@ + "        "@ + paint(on, "2"@, "at"@) + " "@ + paint(
        on,
        "2"@,
        f.path,
    ) + "\n"@
}

pub open spec fn findings_text(fs: Seq<FindingView>, on: bool) -> Seq<char>
    decreases fs.len(),
{
    if fs.len() == 0 {
        Seq::empty()
    } else {
        findings_text(fs.drop_last(), on) + finding_text(fs.last(), on)
    }
}

/// Every finding is rendered, whatever its severity: one finding renders as
/// its three lines, and the rendering of findings in turn is the rendering
/// of each, in order.
pub proof fn law_findings_text(a: Seq<FindingView>, b: Seq<FindingView>, f: FindingView, on: bool)
    ensures
        findings_text(seq![f], on) == finding_text(f, on),
        findings_text(a + b, on) == findings_text(a, on) + findings_text(b, on),
    decreases b.len(),
{
    assert(seq![f].drop_last() =~= Seq::<FindingView>::empty());
    assert(findings_text(Seq::<FindingView>::empty(), on) == Seq::<char>::empty());
    assert(findings_text(seq![f], on) == findings_text(seq![f].drop_last(), on) + finding_text(f, on));
    assert(Seq::<char>::empty() + finding_text(f, on) =~= finding_text(f, on));
    if b.len() == 0 {
        assert(a + b =~= a);
        assert(findings_text(a, on) + Seq::<char>::empty() =~= findings_text(a, on));
    } else {
        law_findings_text(a, b.drop_last(), f, on);
        assert((a + b).drop_last() =~= a + b.drop_last());
        assert((a + b).last() == b.last());
        assert(findings_text(a + b, on) =~= findings_text(a, on) + findings_text(b, on));
    }
}

/// The header: tool and version, target and level.
pub open spec fn header_text(r: Report) -> Seq<char> {
    "omir-validate "@ + r.omir_validate_version@ + " — OMIR R1 conformance\n"@ + "target: "@ + r.target@
        + "   level: "@ + level_name(r.level) + "\n\n"@
}

/// One line per check group.
pub open spec fn checks_text(r: Report, on: bool) -> Seq<char> {
    let desc = by_type_desc(counts_view(r.summary.entries_by_type@));
    let detail = if desc.len() == 0 { Seq::empty() } else { ": "@ + desc };
    let bv = match r.bundle_version {
        Some(s) => s@,
        None => "absent"@,
    };
    "  "@ + dotted_text("structural"@) + " "@ + status_text(r.checks.structural, on) + "   ("@ + decimal(
        r.summary.entries_total as nat,
    ) + " entries"@ + detail + ")\n"@ + "  "@ + dotted_text("reference integrity"@) + " "@ + status_text(
        r.checks.reference_integrity,
        on,
    ) + "   ("@ + decimal(r.refs_resolved as nat) + " references resolved)\n"@ + "  "@ + dotted_text("version presence"@) + " "@ + status_text(
        r.checks.version_presence,
        on,
    ) + "   (Bundle="@ + bv + ", "@ + decimal(r.entries_with_meta_version as nat) + "/"@ + decimal(
        r.summary.entries_total as nat,
    ) + " entries meta.omirVersion=R1)\n"@ + "  "@ + dotted_text("profile"@) + " "@ + paint(
        on,
        "2"@,
        "skipped (no --profile supplied)"@,
    ) + "\n\n"@
}

/// The findings block, when there are findings.
pub open spec fn findings_block(r: Report, on: bool) -> Seq<char> {
    let fs = finding_views(r.findings@);
    if fs.len() == 0 {
        Seq::empty()
    } else {
        "findings:\n"@ + findings_text(fs, on) + "\n"@
    }
}

/// The closing `RESULT:` line.
pub open spec fn result_text(r: Report, on: bool) -> Seq<char> {
    match r.result {
        Outcome::Pass => paint(
            on,
            "32"@,
            "RESULT: PASS  —  Core conformant  ✓  ("@ + (if r.badge_eligible {
                "badge-eligible"@
            } else {
                "badge withheld"@
            }) + ")"@,
        ),
        Outcome::Fail => paint(
            on,
            "31"@,
            "RESULT: FAIL  —  "@ + counted(r.summary.errors as nat, "error"@) + ", "@ + counted(
                r.summary.warnings as nat,
                "warning"@,
            ) + "  —  "@ + (if r.core_conformant {
                "Core conformant, but failed at this level"@
            } else {
                "NOT Core conformant (badge withheld)"@
            }),
        ),
    }
}

/// The whole human rendering.
pub open spec fn human_text(r: Report, on: bool) -> Seq<char> {
    header_text(r) + checks_text(r, on) + findings_block(r, on) + result_text(r, on)
}

/// Minimal ANSI palette.
pub struct Palette {
    on: bool,
}

impl Palette {
    /// Whether styling is on.
    pub closed spec fn enabled(self) -> bool {
        self.on
    }

    pub fn new(on: bool) -> (r: Palette)
        ensures
            r.enabled() == on,
    {
        Palette { on }
    }

    pub fn wrap(&self, code: &str, s: &str) -> (r: String)
        ensures
            r@ == paint(self.enabled(), code@, s@),
    {
        if self.on {
            let mut o = "\x1b[".to_owned();
            o.append(code);
            o.append("m");
            o.append(s);
            o.append("\x1b[0m");
            o
        } else {
            s.to_owned()
        }
    }

    pub fn green(&self, s: &str) -> (r: String)
        ensures
            r@ == paint(self.enabled(), "32"@, s@),
    {
        self.wrap("32", s)
    }

    pub fn red(&self, s: &str) -> (r: String)
        ensures
            r@ == paint(self.enabled(), "31"@, s@),
    {
        self.wrap("31", s)
    }

    pub fn yellow(&self, s: &str) -> (r: String)
        ensures
            r@ == paint(self.enabled(), "33"@, s@),
    {
        self.wrap("33", s)
    }

    pub fn blue(&self, s: &str) -> (r: String)
        ensures
            r@ == paint(self.enabled(), "34"@, s@),
    {
        self.wrap("34", s)
    }

    pub fn dim(&self, s: &str) -> (r: String)
        ensures
            r@ == paint(self.enabled(), "2"@, s@),
    {
        self.wrap("2", s)
    }

    pub fn bold(&self, s: &str) -> (r: String)
        ensures
            r@ == paint(self.enabled(), "1"@, s@),
    {
        self.wrap("1", s)
    }
}

/// Appends `"<n> <noun>"`, with the noun in the plural unless `n` is one.
fn push_counted(out: &mut String, n: usize, noun: &str)
    ensures
        final(out)@ == old(out)@ + counted(n as nat, noun@),
{
    push_decimal(out, n);
    out.append(" ");
    out.append(noun);
    if n != 1 {
        out.append("s");
    }
}

/// `s` padded on the right with the one-character `fill` to `width` characters.
fn pad(s: &str, fill: &str, width: usize) -> (r: String)
    requires
        fill@.len() == 1,
    ensures
        r@ == pad_right(s@, fill@[0], width as nat),
{
    let mut o = s.to_owned();
    let mut k = s.unicode_len();
    let n = k;
    assert(o@ =~= s@ + repeat_char(fill@[0], 0));
    while k < width
        invariant
            n == s@.len(),
            n <= k <= width || (k == n && n >= width),
            fill@.len() == 1,
            o@ == s@ + repeat_char(fill@[0], (k - n) as nat),
        decreases width - k,
    {
        o.append(fill);
        assert(repeat_char(fill@[0], (k + 1 - n) as nat) == repeat_char(fill@[0], (k - n) as nat).push(fill@[0]));
        assert(fill@ =~= seq![fill@[0]]);
        assert(o@ =~= s@ + repeat_char(fill@[0], (k + 1 - n) as nat));
        k = k + 1;
    }
    o
}

/// `"label "` padded with dots to a fixed column.
pub fn dotted(label: &str) -> (r: String)
    ensures
        r@ == dotted_text(label@),
{
    let mut s = label.to_owned();
    s.append(" ");
    proof {
        reveal_strlit(".");
    }
    pad(s.as_str(), ".", 23)
}

pub fn status_word(s: CheckStatus, p: &Palette) -> (r: String)
    ensures
        r@ == status_text(s, p.enabled()),
{
    match s {
        CheckStatus::Pass => p.green("pass"),
        CheckStatus::Fail => p.red("FAIL"),
        CheckStatus::Skipped => p.dim("skipped"),
    }
}

pub fn sev_tag(s: Severity, p: &Palette) -> (r: String)
    ensures
        r@ == sev_text(s, p.enabled()),
{
    match s {
        Severity::Error => p.red("error  "),
        Severity::Warning => p.yellow("warning"),
        Severity::Info => p.blue("info   "),
    }
}

impl Level {
    /// The level's name as written on the command line and in reports.
    pub fn to_string(&self) -> (r: String)
        ensures
            r@ == level_name(*self),
    {
        match self {
            Level::Core => "core".to_owned(),
            Level::Strict => "strict".to_owned(),
            Level::Profile => "profile".to_owned(),
        }
    }
}

/// Where a finding is.
fn loc_of(e: &Option<EntryRef>) -> (r: String)
    ensures
        r@ == loc_text(entry_view(*e)),
{
    match e {
        Some(er) => {
            if !er.resource_type.as_str().is_empty() {
                let mut o = er.resource_type.clone();
                o.append("/");
                o.append(er.id.as_str());
                o.append(" (entry ");
                push_decimal(&mut o, er.index);
                o.append(")");
                o
            } else {
                let mut o = "entry ".to_owned();
                push_decimal(&mut o, er.index);
                o
            }
        },
        None => "Bundle".to_owned(),
    }
}

/// The three lines of one finding.
fn finding_lines(f: &Finding, p: &Palette) -> (r: String)
    ensures
        r@ == finding_text(f@, p.enabled()),
{
    let mut o = "  ".to_owned();
    let tag = sev_tag(f.severity, p);
    o.append(tag.as_str());
    o.append("  ");
    proof {
        reveal_strlit(" ");
    }
    let code = pad(f.code, " ", 5);
    let code = p.bold(code.as_str());
    o.append(code.as_str());
    o.append("  ");
    let loc = loc_of(&f.entry);
    o.append(loc.as_str());
    o.append("\n");
    o.append("        ");
    o.append(f.message.as_str());
    o.append("\n");
    o.append("        ");
    let at = p.dim("at");
    o.append(at.as_str());
    o.append(" ");
    let path = p.dim(f.path.as_str());
    o.append(path.as_str());
    o.append("\n");
    assert(o@ =~= finding_text(f@, p.enabled()));
    o
}

impl Report {
    /// `"<n> <type>"` for each counted type, joined with `", "`.
    pub fn entries_by_type_desc(&self) -> (r: String)
        ensures
            r@ == by_type_desc(counts_view(self.summary.entries_by_type@)),
    {
        let bt = &self.summary.entries_by_type;
        let ghost items = counts_view(bt@).map_values(|p: (Seq<char>, nat)| decimal(p.1) + " "@ + p.0);
        let mut out = String::new();
        let mut i: usize = 0;
        assert(items.take(0) =~= Seq::<Seq<char>>::empty());
        while i < bt.len()
            invariant
                i <= bt@.len(),
                bt == &self.summary.entries_by_type,
                items == counts_view(bt@).map_values(|p: (Seq<char>, nat)| decimal(p.1) + " "@ + p.0),
                items.len() == bt@.len(),
                out@ == join(items.take(i as int), ", "@),
            decreases bt@.len() - i,
        {
            let ghost after = items.take(i + 1);
            assert(after.drop_last() =~= items.take(i as int));
            let ghost before_out = out@;
            if i > 0 {
                out.append(", ");
            }
            let ghost pre = out@;
            push_decimal(&mut out, bt[i].1);
            out.append(" ");
            out.append(bt[i].0.as_str());
            assert(items[i as int] == decimal(bt@[i as int].1 as nat) + " "@ + bt@[i as int].0@);
            assert(out@ =~= pre + items[i as int]);
            assert(after.last() == items[i as int]);
            if i == 0 {
                assert(before_out =~= Seq::<char>::empty());
                assert(after.len() == 1);
                assert(out@ =~= after[0]);
            }
            i = i + 1;
        }
        assert(items.take(bt@.len() as int) =~= items);
        out
    }

    fn header(&self) -> (r: String)
        ensures
            r@ == header_text(*self),
    {
        let mut o = "omir-validate ".to_owned();
        o.append(self.omir_validate_version);
        o.append(" — OMIR R1 conformance\n");
        o.append("target: ");
        o.append(self.target.as_str());
        o.append("   level: ");
        let l = self.level.to_string();
        o.append(l.as_str());
        o.append("\n\n");
        assert(o@ =~= header_text(*self));
        o
    }

    fn check_lines(&self, p: &Palette) -> (r: String)
        ensures
            r@ == checks_text(*self, p.enabled()),
    {
        let desc = self.entries_by_type_desc();
        let detail = if desc.as_str().is_empty() {
            String::new()
        } else {
            let mut d = ": ".to_owned();
            d.append(desc.as_str());
            d
        };
        let mut o = "  ".to_owned();
        let d1 = dotted("structural");
        o.append(d1.as_str());
        o.append(" ");
        let s1 = status_word(self.checks.structural, p);
        o.append(s1.as_str());
        o.append("   (");
        push_decimal(&mut o, self.summary.entries_total);
        o.append(" entries");
        o.append(detail.as_str());
        o.append(")\n");
        let ghost line1 = o@;
        o.append("  ");
        let d2 = dotted("reference integrity");
        o.append(d2.as_str());
        o.append(" ");
        let s2 = status_word(self.checks.reference_integrity, p);
        o.append(s2.as_str());
        o.append("   (");
        push_decimal(&mut o, self.refs_resolved);
        o.append(" references resolved)\n");
        let ghost line2 = o@;
        o.append("  ");
        let d3 = dotted("version presence");
        o.append(d3.as_str());
        o.append(" ");
        let s3 = status_word(self.checks.version_presence, p);
        o.append(s3.as_str());
        o.append("   (Bundle=");
        match &self.bundle_version {
            Some(v) => o.append(v.as_str()),
            None => o.append("absent"),
        }
        o.append(", ");
        push_decimal(&mut o, self.entries_with_meta_version);
        o.append("/");
        push_decimal(&mut o, self.summary.entries_total);
        o.append(" entries meta.omirVersion=R1)\n");
        o.append("  ");
        let d4 = dotted("profile");
        o.append(d4.as_str());
        o.append(" ");
        let sk = p.dim("skipped (no --profile supplied)");
        o.append(sk.as_str());
        o.append("\n\n");
        assert(o@ =~= checks_text(*self, p.enabled()));
        o
    }

    fn findings_lines(&self, p: &Palette) -> (r: String)
        ensures
            r@ == findings_block(*self, p.enabled()),
    {
        let ghost fs = finding_views(self.findings@);
        if self.findings.len() == 0 {
            assert(fs.len() == 0);
            return String::new();
        }
        let mut o = "findings:\n".to_owned();
        let ghost start = o@;
        let mut i: usize = 0;
        assert(fs.take(0) =~= Seq::<FindingView>::empty());
        assert(o@ =~= start + findings_text(fs.take(0), p.enabled()));
        while i < self.findings.len()
            invariant
                i <= self.findings@.len(),
                fs == finding_views(self.findings@),
                fs.len() == self.findings@.len(),
                o@ == start + findings_text(fs.take(i as int), p.enabled()),
            decreases self.findings@.len() - i,
        {
            let ghost after = fs.take(i + 1);
            assert(after.drop_last() =~= fs.take(i as int));
            assert(after.last() == self.findings@[i as int]@);
            let line = finding_lines(&self.findings[i], p);
            o.append(line.as_str());
            assert(o@ =~= start + findings_text(after, p.enabled()));
            i = i + 1;
        }
        assert(fs.take(self.findings@.len() as int) =~= fs);
        o.append("\n");
        assert(o@ =~= findings_block(*self, p.enabled()));
        o
    }

    /// The closing `RESULT:` line.
    pub fn result_line(&self, p: &Palette) -> (r: String)
        ensures
            r@ == result_text(*self, p.enabled()),
    {
        match self.result {
            Outcome::Pass => {
                let mut m = "RESULT: PASS  —  Core conformant  ✓  (".to_owned();
                if self.badge_eligible {
                    m.append("badge-eligible");
                } else {
                    m.append("badge withheld");
                }
                m.append(")");
                p.green(m.as_str())
            },
            Outcome::Fail => {
                let mut m = "RESULT: FAIL  —  ".to_owned();
                push_counted(&mut m, self.summary.errors, "error");
                m.append(", ");
                push_counted(&mut m, self.summary.warnings, "warning");
                m.append("  —  ");
                if self.core_conformant {
                    m.append("Core conformant, but failed at this level");
                } else {
                    m.append("NOT Core conformant (badge withheld)");
                }
                p.red(m.as_str())
            },
        }
    }

    /// Render the report for a terminal. `color` toggles ANSI styling.
    pub fn render_human(&self, color: bool) -> (r: String)
        ensures
            r@ == human_text(*self, color),
    {
        let p = Palette::new(color);
        let mut o = self.header();
        let c = self.check_lines(&p);
        o.append(c.as_str());
        let f = self.findings_lines(&p);
        o.append(f.as_str());
        let res = self.result_line(&p);
        o.append(res.as_str());
        assert(o@ =~= human_text(*self, color));
        o
    }
}

/// The quiet rendering: only the findings block and the `RESULT:` line.
pub open spec fn quiet_text(r: Report, on: bool) -> Seq<char> {
    findings_block(r, on) + result_text(r, on)
}

/// The human rendering, cut down in quiet mode to the findings block and the
/// `RESULT:` line.
pub fn render_human_quiet(report: &Report, color: bool, quiet: bool) -> (r: String)
    ensures
        r@ == if quiet {
            quiet_text(*report, color)
        } else {
            human_text(*report, color)
        },
{
    if !quiet {
        return report.render_human(color);
    }
    let p = Palette::new(color);
    let mut o = report.findings_lines(&p);
    let res = report.result_line(&p);
    o.append(res.as_str());
    o
}

} // verus!
