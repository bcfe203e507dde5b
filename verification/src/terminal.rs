//! Terminal views: which report is shown, how views cycle, and the plain
//! text reports themselves (hardware, sensors, warnings).
use vstd::prelude::*;
use crate::hardware::{HardwareCategory, HardwareDevice, HardwareInventory, HardwareProperty, HardwareSection, HardwareSensor};
use crate::model::has_suffix;
use crate::rows::{RowKind, SensorRow};
use crate::text::{append_chars, append_str, chars_eq_str, chars_of, ends_with_str, string_of, trim, trim_chars};

verus! {

/// What the terminal report shows.
#[derive(Debug, Clone, Copy, PartialEq, Eq, Structural)]
pub enum TerminalView {
    Mixed,
    Sensors,
    Hardware,
}

pub open spec fn terminal_view_display_name(v: TerminalView) -> Seq<char> {
    match v {
        TerminalView::Mixed => "Mixed"@,
        TerminalView::Sensors => "Sensors"@,
        TerminalView::Hardware => "Hardware"@,
    }
}

impl TerminalView {
    /// The name shown to the user.
    pub fn display_name(self) -> (r: &'static str)
        ensures
            r@ == terminal_view_display_name(self),
    {
        match self {
            TerminalView::Mixed => "Mixed",
            TerminalView::Sensors => "Sensors",
            TerminalView::Hardware => "Hardware",
        }
    }
}

pub open spec fn next_view(v: TerminalView) -> TerminalView {
    match v {
        TerminalView::Mixed => TerminalView::Sensors,
        TerminalView::Sensors => TerminalView::Hardware,
        TerminalView::Hardware => TerminalView::Mixed,
    }
}

pub open spec fn previous_view(v: TerminalView) -> TerminalView {
    match v {
        TerminalView::Mixed => TerminalView::Hardware,
        TerminalView::Sensors => TerminalView::Mixed,
        TerminalView::Hardware => TerminalView::Sensors,
    }
}

impl TerminalView {
    /// The view after this one.
    pub fn next(self) -> (r: TerminalView)
        ensures
            r == next_view(self),
    {
        match self {
            TerminalView::Mixed => TerminalView::Sensors,
            TerminalView::Sensors => TerminalView::Hardware,
            TerminalView::Hardware => TerminalView::Mixed,
        }
    }

    /// The view before this one.
    pub fn previous(self) -> (r: TerminalView)
        ensures
            r == previous_view(self),
    {
        match self {
            TerminalView::Mixed => TerminalView::Hardware,
            TerminalView::Sensors => TerminalView::Mixed,
            TerminalView::Hardware => TerminalView::Sensors,
        }
    }
}

/// Going to the next view and back returns to the same view, and three
/// steps in either direction go round the whole cycle.
pub proof fn law_views_cycle(v: TerminalView)
    ensures
        previous_view(next_view(v)) == v,
        next_view(previous_view(v)) == v,
        next_view(next_view(next_view(v))) == v,
        next_view(v) != v,
{
}


// ---------------------------------------------------------------------------
// Report text
// ---------------------------------------------------------------------------
/// The width of the rules under headings and devices.
pub const RULE_WIDTH: usize = 84;

/// `c` repeated `n` times.
pub open spec fn repeated(c: char, n: nat) -> Seq<char> {
    Seq::new(n, |i: int| c)
}

/// `n` spaces (none when `n` is not positive).
pub open spec fn spaces(n: int) -> Seq<char> {
    if n <= 0 {
        Seq::empty()
    } else {
        repeated(' ', n as nat)
    }
}

/// `s` left-aligned in a field of `w` characters.
pub open spec fn pad_left(s: Seq<char>, w: nat) -> Seq<char> {
    s + spaces(w - s.len())
}

/// `s` right-aligned in a field of `w` characters.
pub open spec fn pad_right(s: Seq<char>, w: nat) -> Seq<char> {
    spaces(w - s.len()) + s
}

/// `s` cut to at most `m` characters, the last of them `…` when cut.
pub open spec fn truncated(s: Seq<char>, m: nat) -> Seq<char> {
    if s.len() <= m {
        s
    } else if m > 1 {
        s.take(m - 1).push('…')
    } else {
        seq!['…']
    }
}

/// A heading and its rule of `rule` characters.
#[verifier::opaque]
pub open spec fn ruled_heading(title: Seq<char>, rule: char) -> Seq<char> {
    title + "\n"@ + repeated(rule, RULE_WIDTH as nat) + "\n"@
}

/// An indented subheading.
#[verifier::opaque]
pub open spec fn subsection_line(title: Seq<char>) -> Seq<char> {
    "  "@ + title + "\n"@
}

/// A property with a label column of 30; blank values are left out.
#[verifier::opaque]
pub open spec fn property_line(label: Seq<char>, value: Seq<char>) -> Seq<char> {
    if trim(value).len() == 0 {
        Seq::empty()
    } else {
        "    "@ + pad_left(label, 30) + " "@ + value + "\n"@
    }
}

/// Whether an observed-statistics cell holds a value.
pub open spec fn is_observed(v: Seq<char>) -> bool {
    trim(v).len() > 0 && v != "—"@
}

pub open spec fn has_observed_values(minimum: Seq<char>, maximum: Seq<char>, average: Seq<char>) -> bool {
    is_observed(minimum) || is_observed(maximum) || is_observed(average)
}

/// The column heading of a sensor table: with the observed minimum,
/// maximum and average when any reading has them.
#[verifier::opaque]
pub open spec fn sensor_header(observed: bool) -> Seq<char> {
    if observed {
        "    "@ + pad_left("Reading"@, 27) + " "@ + pad_right("Current"@, 11) + " "@ + pad_right("Minimum"@, 11)
            + " "@ + pad_right("Maximum"@, 11) + " "@ + pad_right("Average"@, 11) + "  Status\n"@
    } else {
        "    "@ + pad_left("Reading"@, 47) + " "@ + pad_right("Current"@, 18) + "  Status\n"@
    }
}

/// One reading of a sensor table, each cell cut to its column.
#[verifier::opaque]
pub open spec fn sensor_line(
    label: Seq<char>,
    current: Seq<char>,
    minimum: Seq<char>,
    maximum: Seq<char>,
    average: Seq<char>,
    status: Seq<char>,
    observed: bool,
) -> Seq<char> {
    if observed {
        "    "@ + pad_left(truncated(label, 27), 27) + " "@ + pad_right(truncated(current, 11), 11) + " "@
            + pad_right(truncated(minimum, 11), 11) + " "@ + pad_right(truncated(maximum, 11), 11) + " "@
            + pad_right(truncated(average, 11), 11) + "  "@ + status + "\n"@
    } else {
        "    "@ + pad_left(truncated(label, 47), 47) + " "@ + pad_right(truncated(current, 18), 18) + "  "@
            + status + "\n"@
    }
}

fn push_repeated(out: &mut Vec<char>, c: char, n: usize)
    ensures
        final(out)@ == old(out)@ + repeated(c, n as nat),
{
    let mut j: usize = 0;
    while j < n
        invariant
            j <= n,
            out@ == old(out)@ + repeated(c, j as nat),
        decreases n - j,
    {
        out.push(c);
        j += 1;
        assert(out@ =~= old(out)@ + repeated(c, j as nat));
    }
}

fn push_spaces(out: &mut Vec<char>, len: usize, w: usize)
    ensures
        final(out)@ == old(out)@ + spaces(w - len),
{
    if len < w {
        push_repeated(out, ' ', w - len);
    } else {
        assert(out@ =~= old(out)@ + spaces(w - len));
    }
}

fn append_left(out: &mut Vec<char>, s: &[char], w: usize)
    ensures
        final(out)@ == old(out)@ + pad_left(s@, w as nat),
{
    append_chars(out, s);
    push_spaces(out, s.len(), w);
    assert(out@ =~= old(out)@ + pad_left(s@, w as nat));
}

fn append_right(out: &mut Vec<char>, s: &[char], w: usize)
    ensures
        final(out)@ == old(out)@ + pad_right(s@, w as nat),
{
    push_spaces(out, s.len(), w);
    append_chars(out, s);
    assert(out@ =~= old(out)@ + pad_right(s@, w as nat));
}

/// A text cut to at most `maximum` characters.
pub fn truncate(value: &[char], maximum: usize) -> (r: Vec<char>)
    ensures
        r@ == truncated(value@, maximum as nat),
{
    if value.len() <= maximum {
        let mut r: Vec<char> = Vec::new();
        append_chars(&mut r, value);
        assert(r@ =~= value@);
        r
    } else if maximum > 1 {
        let mut r: Vec<char> = Vec::new();
        let mut i: usize = 0;
        while i < maximum - 1
            invariant
                maximum > 1,
                maximum < value@.len(),
                i <= maximum - 1,
                r@ == value@.take(i as int),
            decreases maximum - 1 - i,
        {
            r.push(value[i]);
            i += 1;
            assert(r@ =~= value@.take(i as int));
        }
        r.push('…');
        r
    } else {
        let mut r: Vec<char> = Vec::new();
        r.push('…');
        assert(r@ =~= seq!['…']);
        r
    }
}

fn append_left_cut(out: &mut Vec<char>, s: &str, w: usize)
    ensures
        final(out)@ == old(out)@ + pad_left(truncated(s@, w as nat), w as nat),
{
    let t = truncate(&chars_of(s), w);
    append_left(out, &t, w);
}

fn append_right_cut(out: &mut Vec<char>, s: &str, w: usize)
    ensures
        final(out)@ == old(out)@ + pad_right(truncated(s@, w as nat), w as nat),
{
    let t = truncate(&chars_of(s), w);
    append_right(out, &t, w);
}

fn append_ruled_heading(out: &mut Vec<char>, title: &str, rule: char)
    ensures
        final(out)@ == old(out)@ + ruled_heading(title@, rule),
{
    append_str(out, title);
    append_str(out, "\n");
    push_repeated(out, rule, RULE_WIDTH);
    append_str(out, "\n");
    reveal(ruled_heading);
    assert(out@ =~= old(out)@ + ruled_heading(title@, rule));
}

fn append_subsection(out: &mut Vec<char>, title: &str)
    ensures
        final(out)@ == old(out)@ + subsection_line(title@),
{
    append_str(out, "  ");
    append_str(out, title);
    append_str(out, "\n");
    reveal(subsection_line);
    assert(out@ =~= old(out)@ + subsection_line(title@));
}

fn is_blank(s: &str) -> (r: bool)
    ensures
        r == (trim(s@).len() == 0),
{
    trim_chars(&chars_of(s)).len() == 0
}

fn append_property_line(out: &mut Vec<char>, label: &str, value: &str)
    ensures
        final(out)@ == old(out)@ + property_line(label@, value@),
{
    if !is_blank(value) {
        append_str(out, "    ");
        append_left(out, &chars_of(label), 30);
        append_str(out, " ");
        append_str(out, value);
        append_str(out, "\n");
    }
    reveal(property_line);
    assert(out@ =~= old(out)@ + property_line(label@, value@));
}

fn observed_cell(v: &str) -> (r: bool)
    ensures
        r == is_observed(v@),
{
    !is_blank(v) && !chars_eq_str(&chars_of(v), "—")
}

fn observed_values(minimum: &str, maximum: &str, average: &str) -> (r: bool)
    ensures
        r == has_observed_values(minimum@, maximum@, average@),
{
    observed_cell(minimum) || observed_cell(maximum) || observed_cell(average)
}

fn append_sensor_header(out: &mut Vec<char>, observed: bool)
    ensures
        final(out)@ == old(out)@ + sensor_header(observed),
{
    append_str(out, "    ");
    if observed {
        append_left(out, &chars_of("Reading"), 27);
        append_str(out, " ");
        append_right(out, &chars_of("Current"), 11);
        append_str(out, " ");
        append_right(out, &chars_of("Minimum"), 11);
        append_str(out, " ");
        append_right(out, &chars_of("Maximum"), 11);
        append_str(out, " ");
        append_right(out, &chars_of("Average"), 11);
    } else {
        append_left(out, &chars_of("Reading"), 47);
        append_str(out, " ");
        append_right(out, &chars_of("Current"), 18);
    }
    append_str(out, "  Status\n");
    reveal(sensor_header);
    assert(out@ =~= old(out)@ + sensor_header(observed));
}

fn append_sensor_line(
    out: &mut Vec<char>,
    label: &str,
    current: &str,
    minimum: &str,
    maximum: &str,
    average: &str,
    status: &str,
    observed: bool,
)
    ensures
        final(out)@ == old(out)@ + sensor_line(label@, current@, minimum@, maximum@, average@, status@, observed),
{
    append_str(out, "    ");
    if observed {
        append_left_cut(out, label, 27);
        append_str(out, " ");
        append_right_cut(out, current, 11);
        append_str(out, " ");
        append_right_cut(out, minimum, 11);
        append_str(out, " ");
        append_right_cut(out, maximum, 11);
        append_str(out, " ");
        append_right_cut(out, average, 11);
    } else {
        append_left_cut(out, label, 47);
        append_str(out, " ");
        append_right_cut(out, current, 18);
    }
    append_str(out, "  ");
    append_str(out, status);
    append_str(out, "\n");
    reveal(sensor_line);
    assert(out@ =~= old(out)@ + sensor_line(label@, current@, minimum@, maximum@, average@, status@, observed));
}


/// Whether any of the first `n` sensors has observed statistics.
pub open spec fn any_observed_sensor(s: Seq<HardwareSensor>, n: nat) -> bool
    decreases n,
{
    n > 0 && (any_observed_sensor(s, (n - 1) as nat) || has_observed_values(
        s[n - 1].minimum@,
        s[n - 1].maximum@,
        s[n - 1].average@,
    ))
}

/// The group of the sensor before `i` (none before the first).
pub open spec fn group_before(s: Seq<HardwareSensor>, i: int) -> Seq<char> {
    if i <= 0 {
        Seq::empty()
    } else {
        s[i - 1].group@
    }
}

/// The first `n` sensors of a device: each new group under its own
/// subheading and column heading.
pub open spec fn hardware_sensor_lines(s: Seq<HardwareSensor>, n: nat, observed: bool) -> Seq<char>
    decreases n,
{
    if n == 0 {
        Seq::empty()
    } else {
        let x = s[n - 1];
        hardware_sensor_lines(s, (n - 1) as nat, observed) + (if x.group@ != group_before(s, n - 1) {
            subsection_line(x.group@) + sensor_header(observed)
        } else {
            Seq::empty()
        }) + sensor_line(x.label@, x.current@, x.minimum@, x.maximum@, x.average@, x.status@, observed)
    }
}

/// The property lines of the first `n` properties.
pub open spec fn report_properties(p: Seq<HardwareProperty>, n: nat) -> Seq<char>
    decreases n,
{
    if n == 0 {
        Seq::empty()
    } else {
        report_properties(p, (n - 1) as nat) + property_line(p[n - 1].label@, p[n - 1].value@)
    }
}

/// The first `n` sections: each titled subheading and its properties.
pub open spec fn report_sections(t: Seq<HardwareSection>, n: nat) -> Seq<char>
    decreases n,
{
    if n == 0 {
        Seq::empty()
    } else {
        report_sections(t, (n - 1) as nat) + subsection_line(t[n - 1].title@) + report_properties(
            t[n - 1].properties@,
            t[n - 1].properties@.len(),
        )
    }
}

/// A device in a report: its name, subtitle and dotted rule, its
/// sections, its advanced properties, its sensors when asked for, and a
/// blank line.
pub open spec fn device_report(d: HardwareDevice, include_sensors: bool) -> Seq<char> {
    d.name@ + "\n"@ + (if trim(d.subtitle@).len() > 0 {
        "  "@ + d.subtitle@ + "\n"@
    } else {
        Seq::empty()
    }) + repeated('·', RULE_WIDTH as nat) + "\n"@ + report_sections(d.sections@, d.sections@.len()) + (
    if d.advanced@.len() > 0 {
        subsection_line("Advanced"@) + report_properties(d.advanced@, d.advanced@.len())
    } else {
        Seq::empty()
    }) + (if include_sensors && d.sensors@.len() > 0 {
        hardware_sensor_lines(
            d.sensors@,
            d.sensors@.len(),
            any_observed_sensor(d.sensors@, d.sensors@.len()),
        )
    } else {
        Seq::empty()
    }) + "\n"@
}

pub open spec fn devices_report(d: Seq<HardwareDevice>, n: nat, include_sensors: bool) -> Seq<char>
    decreases n,
{
    if n == 0 {
        Seq::empty()
    } else {
        devices_report(d, (n - 1) as nat, include_sensors) + device_report(d[n - 1], include_sensors)
    }
}

pub open spec fn categories_report(c: Seq<HardwareCategory>, n: nat, include_sensors: bool) -> Seq<char>
    decreases n,
{
    if n == 0 {
        Seq::empty()
    } else {
        let k = c[n - 1];
        categories_report(c, (n - 1) as nat, include_sensors) + ruled_heading(k.label@, '-') + devices_report(
            k.devices@,
            k.devices@.len(),
            include_sensors,
        )
    }
}

/// The hardware report: its title, then each category under its heading.
pub open spec fn inventory_report(c: Seq<HardwareCategory>, include_sensors: bool) -> Seq<char> {
    ruled_heading("HWall hardware report"@, '=') + categories_report(c, c.len(), include_sensors)
}

fn append_report_properties(out: &mut Vec<char>, p: &Vec<HardwareProperty>)
    ensures
        final(out)@ == old(out)@ + report_properties(p@, p@.len()),
{
    let mut i: usize = 0;
    while i < p.len()
        invariant
            i <= p@.len(),
            out@ == old(out)@ + report_properties(p@, i as nat),
        decreases p.len() - i,
    {
        append_property_line(out, p[i].label.as_str(), p[i].value.as_str());
        i += 1;
        assert(out@ =~= old(out)@ + report_properties(p@, i as nat));
    }
}

fn any_observed_hardware(s: &Vec<HardwareSensor>) -> (r: bool)
    ensures
        r == any_observed_sensor(s@, s@.len()),
{
    let mut r = false;
    let mut i: usize = 0;
    while i < s.len()
        invariant
            i <= s@.len(),
            r == any_observed_sensor(s@, i as nat),
        decreases s.len() - i,
    {
        r = r || observed_values(s[i].minimum.as_str(), s[i].maximum.as_str(), s[i].average.as_str());
        i += 1;
    }
    r
}

fn append_hardware_sensors(out: &mut Vec<char>, s: &Vec<HardwareSensor>)
    ensures
        final(out)@ == old(out)@ + hardware_sensor_lines(s@, s@.len(), any_observed_sensor(s@, s@.len())),
{
    let observed = any_observed_hardware(s);
    let mut i: usize = 0;
    while i < s.len()
        invariant
            i <= s@.len(),
            observed == any_observed_sensor(s@, s@.len()),
            out@ == old(out)@ + hardware_sensor_lines(s@, i as nat, observed),
        decreases s.len() - i,
    {
        let x = &s[i];
        let ghost before = out@;
        let previous: Vec<char> = if i == 0 {
            Vec::new()
        } else {
            chars_of(s[i - 1].group.as_str())
        };
        assert(previous@ == group_before(s@, i as int));
        if !chars_eq_str(&previous, x.group.as_str()) {
            append_subsection(out, x.group.as_str());
            append_sensor_header(out, observed);
        }
        let ghost mid = out@;
        assert(mid == before + (if x.group@ != group_before(s@, i as int) {
            subsection_line(x.group@) + sensor_header(observed)
        } else {
            Seq::<char>::empty()
        }));
        append_sensor_line(
            out,
            x.label.as_str(),
            x.current.as_str(),
            x.minimum.as_str(),
            x.maximum.as_str(),
            x.average.as_str(),
            x.status.as_str(),
            observed,
        );
        i += 1;
        assert(out@ =~= old(out)@ + hardware_sensor_lines(s@, i as nat, observed));
    }
}

fn append_device_report(out: &mut Vec<char>, d: &HardwareDevice, include_sensors: bool)
    ensures
        final(out)@ == old(out)@ + device_report(*d, include_sensors),
{
    append_str(out, d.name.as_str());
    append_str(out, "\n");
    if !is_blank(d.subtitle.as_str()) {
        append_str(out, "  ");
        append_str(out, d.subtitle.as_str());
        append_str(out, "\n");
    }
    push_repeated(out, '·', RULE_WIDTH);
    append_str(out, "\n");
    let ghost head = out@;
    let mut i: usize = 0;
    while i < d.sections.len()
        invariant
            i <= d.sections@.len(),
            out@ == head + report_sections(d.sections@, i as nat),
        decreases d.sections.len() - i,
    {
        append_subsection(out, d.sections[i].title.as_str());
        append_report_properties(out, &d.sections[i].properties);
        i += 1;
        assert(out@ =~= head + report_sections(d.sections@, i as nat));
    }
    let ghost with_sections = out@;
    if d.advanced.len() > 0 {
        append_subsection(out, "Advanced");
        append_report_properties(out, &d.advanced);
    }
    let ghost with_advanced = out@;
    if include_sensors && d.sensors.len() > 0 {
        append_hardware_sensors(out, &d.sensors);
    }
    let ghost with_sensors = out@;
    append_str(out, "\n");
    assert(out@ =~= old(out)@ + device_report(*d, include_sensors));
}

fn append_inventory(out: &mut Vec<char>, inventory: &HardwareInventory, include_sensors: bool)
    ensures
        final(out)@ == old(out)@ + inventory_report(inventory.categories@, include_sensors),
{
    append_ruled_heading(out, "HWall hardware report", '=');
    let ghost titled = out@;
    let c = &inventory.categories;
    let mut i: usize = 0;
    while i < c.len()
        invariant
            i <= c@.len(),
            out@ == titled + categories_report(c@, i as nat, include_sensors),
        decreases c.len() - i,
    {
        let k = &c[i];
        append_ruled_heading(out, k.label.as_str(), '-');
        let ghost headed = out@;
        let mut m: usize = 0;
        while m < k.devices.len()
            invariant
                m <= k.devices@.len(),
                out@ == headed + devices_report(k.devices@, m as nat, include_sensors),
            decreases k.devices.len() - m,
        {
            append_device_report(out, &k.devices[m], include_sensors);
            m += 1;
            assert(out@ =~= headed + devices_report(k.devices@, m as nat, include_sensors));
        }
        i += 1;
        assert(out@ =~= titled + categories_report(c@, i as nat, include_sensors));
    }
    assert(out@ =~= old(out)@ + inventory_report(inventory.categories@, include_sensors));
}

/// The hardware report of an inventory, with each device's sensors when
/// `include_sensors` holds.
pub fn render_inventory(inventory: &HardwareInventory, include_sensors: bool) -> (r: String)
    ensures
        r@ == inventory_report(inventory.categories@, include_sensors),
{
    let mut out: Vec<char> = Vec::new();
    append_inventory(&mut out, inventory, include_sensors);
    assert(out@ =~= inventory_report(inventory.categories@, include_sensors));
    string_of(&out)
}


/// Whether any of the first `n` rows is a reading with observed statistics.
pub open spec fn any_observed_row(rows: Seq<SensorRow>, n: nat) -> bool
    decreases n,
{
    n > 0 && (any_observed_row(rows, (n - 1) as nat) || (rows[n - 1].kind == RowKind::Sensor
        && has_observed_values(rows[n - 1].minimum@, rows[n - 1].maximum@, rows[n - 1].average@)))
}

/// What a row adds to the sensor report written so far (`acc`): a device
/// heading (after a blank line, unless one is already there) with its
/// status and dotted rule; a group subheading with the column heading; or
/// a reading.
pub open spec fn row_piece(acc: Seq<char>, r: SensorRow, observed: bool) -> Seq<char> {
    match r.kind {
        RowKind::Device => (if has_suffix(acc, "\n"@) && !has_suffix(acc, "\n\n"@) {
            "\n"@
        } else {
            Seq::empty()
        }) + r.label@ + "\n"@ + (if trim(r.status@).len() > 0 {
            "  "@ + r.status@ + "\n"@
        } else {
            Seq::empty()
        }) + repeated('·', RULE_WIDTH as nat) + "\n"@,
        RowKind::Header => subsection_line(r.label@) + sensor_header(observed),
        RowKind::Sensor => sensor_line(
            r.label@,
            r.current@,
            r.minimum@,
            r.maximum@,
            r.average@,
            r.status@,
            observed,
        ),
    }
}

/// The sensor report's title and its first `n` rows.
pub open spec fn rows_report(rows: Seq<SensorRow>, n: nat, observed: bool) -> Seq<char>
    decreases n,
{
    if n == 0 {
        ruled_heading("HWall sensor report"@, '=')
    } else {
        let acc = rows_report(rows, (n - 1) as nat, observed);
        acc + row_piece(acc, rows[n - 1], observed)
    }
}

/// The sensor report of a table's rows.
pub open spec fn sensor_report(rows: Seq<SensorRow>) -> Seq<char> {
    rows_report(rows, rows.len(), any_observed_row(rows, rows.len()))
}

fn any_observed_rows(rows: &[SensorRow]) -> (r: bool)
    ensures
        r == any_observed_row(rows@, rows@.len()),
{
    let mut r = false;
    let mut i: usize = 0;
    while i < rows.len()
        invariant
            i <= rows@.len(),
            r == any_observed_row(rows@, i as nat),
        decreases rows.len() - i,
    {
        r = r || (rows[i].kind == RowKind::Sensor && observed_values(
            rows[i].minimum.as_str(),
            rows[i].maximum.as_str(),
            rows[i].average.as_str(),
        ));
        i += 1;
    }
    r
}

fn append_row(out: &mut Vec<char>, r: &SensorRow, observed: bool)
    ensures
        final(out)@ == old(out)@ + row_piece(old(out)@, *r, observed),
{
    match r.kind {
        RowKind::Device => {
            if ends_with_str(out, "\n") && !ends_with_str(out, "\n\n") {
                append_str(out, "\n");
            }
            append_str(out, r.label.as_str());
            append_str(out, "\n");
            if !is_blank(r.status.as_str()) {
                append_str(out, "  ");
                append_str(out, r.status.as_str());
                append_str(out, "\n");
            }
            push_repeated(out, '·', RULE_WIDTH);
            append_str(out, "\n");
            assert(out@ =~= old(out)@ + row_piece(old(out)@, *r, observed));
        },
        RowKind::Header => {
            append_subsection(out, r.label.as_str());
            append_sensor_header(out, observed);
            assert(out@ =~= old(out)@ + row_piece(old(out)@, *r, observed));
        },
        RowKind::Sensor => {
            append_sensor_line(
                out,
                r.label.as_str(),
                r.current.as_str(),
                r.minimum.as_str(),
                r.maximum.as_str(),
                r.average.as_str(),
                r.status.as_str(),
                observed,
            );
        },
    }
}

/// The sensor report: its title, then each row of the table.
pub fn render_sensor_rows(rows: &[SensorRow]) -> (r: String)
    ensures
        r@ == sensor_report(rows@),
{
    let observed = any_observed_rows(rows);
    let mut out: Vec<char> = Vec::new();
    append_ruled_heading(&mut out, "HWall sensor report", '=');
    assert(out@ =~= rows_report(rows@, 0, observed));
    let mut i: usize = 0;
    while i < rows.len()
        invariant
            i <= rows@.len(),
            out@ == rows_report(rows@, i as nat, observed),
        decreases rows.len() - i,
    {
        append_row(&mut out, &rows[i], observed);
        i += 1;
    }
    string_of(&out)
}

/// The first `n` warnings, one per line.
pub open spec fn warning_lines(w: Seq<String>, n: nat) -> Seq<char>
    decreases n,
{
    if n == 0 {
        Seq::empty()
    } else {
        warning_lines(w, (n - 1) as nat) + "- "@ + w[n - 1]@ + "\n"@
    }
}

/// The warnings section: nothing without warnings.
pub open spec fn warnings_report(w: Seq<String>) -> Seq<char> {
    if w.len() == 0 {
        Seq::empty()
    } else {
        ruled_heading("Warnings"@, '-') + warning_lines(w, w.len())
    }
}

fn append_warnings(out: &mut Vec<char>, warnings: &[String])
    ensures
        final(out)@ == old(out)@ + warnings_report(warnings@),
{
    if warnings.len() == 0 {
        assert(out@ =~= old(out)@ + warnings_report(warnings@));
        return;
    }
    append_ruled_heading(out, "Warnings", '-');
    let ghost headed = out@;
    let mut i: usize = 0;
    while i < warnings.len()
        invariant
            i <= warnings@.len(),
            out@ == headed + warning_lines(warnings@, i as nat),
        decreases warnings.len() - i,
    {
        append_str(out, "- ");
        append_str(out, warnings[i].as_str());
        append_str(out, "\n");
        i += 1;
        assert(out@ =~= headed + warning_lines(warnings@, i as nat));
    }
    assert(out@ =~= old(out)@ + warnings_report(warnings@));
}

/// The report a terminal view shows: the hardware report (with sensors in
/// the mixed view) or the sensor report, then the warnings.
pub open spec fn terminal_report(
    view: TerminalView,
    c: Seq<HardwareCategory>,
    rows: Seq<SensorRow>,
    warnings: Seq<String>,
) -> Seq<char> {
    (match view {
        TerminalView::Sensors => sensor_report(rows),
        _ => inventory_report(c, view == TerminalView::Mixed),
    }) + warnings_report(warnings)
}

/// The text of a terminal view, from the inventory and sensor rows built
/// for it and the snapshot's warnings.
pub fn render_terminal_view(
    view: TerminalView,
    inventory: &HardwareInventory,
    rows: &[SensorRow],
    warnings: &[String],
) -> (r: String)
    ensures
        r@ == terminal_report(view, inventory.categories@, rows@, warnings@),
{
    let mut out: Vec<char> = match view {
        TerminalView::Sensors => chars_of(render_sensor_rows(rows).as_str()),
        TerminalView::Mixed => chars_of(render_inventory(inventory, true).as_str()),
        TerminalView::Hardware => chars_of(render_inventory(inventory, false).as_str()),
    };
    append_warnings(&mut out, warnings);
    string_of(&out)
}

} // verus!
