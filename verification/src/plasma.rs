//! KDE Plasma window placement: a KWin `Remember` rule that keeps the
//! window's position.  The rule's configuration is read by the caller; this
//! module decides which keys to write or delete.
use vstd::prelude::*;
use crate::text::{
    append_str, chars_eq, chars_eq_str, chars_of, decimal, decimal_chars, lower_seq, owned,
    split, split_chars, string_of, to_lower, trim, trim_chars, views, append_chars,
};

verus! {

/// The application id, which is also the window class.
pub const APPLICATION_ID: &'static str = "io.github.hwall.HWall";
/// The main window's title.
pub const MAIN_WINDOW_TITLE: &'static str = "HWall";
/// The group of the managed rule in `kwinrulesrc`.
pub const RULE_ID: &'static str = "io.github.hwall.HWallPlacement";
/// The configuration file of KWin rules.
pub const RULE_FILE: &'static str = "kwinrulesrc";
/// The group that lists the rules.
pub const RULE_LIST_GROUP: &'static str = "General";
/// What reading a missing key gives.
pub const MISSING_VALUE: &'static str = "__HWALL_CONFIG_VALUE_MISSING__";

/// The keys and values of the managed rule.  `position` is deliberately
/// absent: KWin records it itself once the window has been placed.
pub open spec fn managed_entries() -> Seq<(Seq<char>, Seq<char>)> {
    seq![
        ("Description"@, "HWall remembered window placement"@),
        ("enabled"@, "true"@),
        ("wmclass"@, APPLICATION_ID@),
        ("wmclassmatch"@, "1"@),
        ("wmclasscomplete"@, "false"@),
        ("title"@, MAIN_WINDOW_TITLE@),
        ("titlematch"@, "1"@),
        ("types"@, "1"@),
        ("positionrule"@, "4"@),
    ]
}

pub open spec fn str_pairs(v: Seq<(&str, &str)>) -> Seq<(Seq<char>, Seq<char>)> {
    v.map_values(|p: (&str, &str)| (p.0@, p.1@))
}

pub fn managed_rule_entries() -> (r: Vec<(&'static str, &'static str)>)
    ensures
        str_pairs(r@) == managed_entries(),
{
    let mut v: Vec<(&'static str, &'static str)> = Vec::new();
    v.push(("Description", "HWall remembered window placement"));
    v.push(("enabled", "true"));
    v.push(("wmclass", APPLICATION_ID));
    v.push(("wmclassmatch", "1"));
    v.push(("wmclasscomplete", "false"));
    v.push(("title", MAIN_WINDOW_TITLE));
    v.push(("titlematch", "1"));
    v.push(("types", "1"));
    v.push(("positionrule", "4"));
    assert(str_pairs(v@) =~= managed_entries());
    v
}

// ---------------------------------------------------------------------------
// The session
// ---------------------------------------------------------------------------
/// `XDG_CURRENT_DESKTOP` names KDE or Plasma among its `:`/`;`-separated parts.
pub open spec fn names_plasma(desktop: Seq<char>) -> bool {
    let parts = split(desktop.map_values(|c: char| if c == ';' { ':' } else { c }), ':');
    exists|i: int| 0 <= i < parts.len() && (lower_seq(#[trigger] parts[i]) == "kde"@ || lower_seq(parts[i]) == "plasma"@)
}

/// Whether the session is a Plasma session.
pub open spec fn plasma_session(kde_full_session: bool, desktop: Option<Seq<char>>) -> bool {
    kde_full_session || (desktop matches Some(d) && names_plasma(d))
}

pub fn is_plasma_session(kde_full_session: bool, desktop: Option<&str>) -> (r: bool)
    ensures
        r == plasma_session(kde_full_session, match desktop {
            Some(d) => Some(d@),
            None => None,
        }),
{
    if kde_full_session {
        return true;
    }
    match desktop {
        Some(d) => {
            let c = chars_of(d);
            let mut m: Vec<char> = Vec::new();
            let mut i: usize = 0;
            while i < c.len()
                invariant
                    i <= c@.len(),
                    m@ == c@.take(i as int).map_values(|c: char| if c == ';' { ':' } else { c }),
                decreases c.len() - i,
            {
                m.push(if c[i] == ';' { ':' } else { c[i] });
                assert(m@ =~= c@.take(i + 1).map_values(|c: char| if c == ';' { ':' } else { c }));
                i += 1;
            }
            assert(c@.take(c.len() as int) =~= c@);
            let parts = split_chars(&m, ':');
            let ghost ps = views(parts@);
            assert(ps == split(d@.map_values(|c: char| if c == ';' { ':' } else { c }), ':'));
            let mut k: usize = 0;
            while k < parts.len()
                invariant
                    k <= parts@.len(),
                    ps == views(parts@),
                    ps == split(d@.map_values(|c: char| if c == ';' { ':' } else { c }), ':'),
                    !kde_full_session,
                    desktop == Some(d),
                    forall|j: int| 0 <= j < k ==> !(lower_seq(#[trigger] ps[j]) == "kde"@ || lower_seq(ps[j]) == "plasma"@),
                decreases parts.len() - k,
            {
                let l = to_lower(&parts[k]);
                proof {
                    assert(ps[k as int] == parts@[k as int]@);
                }
                if chars_eq_str(&l, "kde") || chars_eq_str(&l, "plasma") {
                    assert(names_plasma(d@));
                    return true;
                }
                k += 1;
            }
            false
        },
        None => false,
    }
}

/// What the session offers for placement.
pub struct PlasmaEnvironment {
    /// The session is a Plasma session.
    pub plasma_session: bool,
    /// `kreadconfig6` and `kwriteconfig6` are installed.
    pub kconfig_tools: bool,
    /// The `qdbus` command found, if any.
    pub qdbus: Option<String>,
}

/// Placement is supported in a Plasma session with the KConfig tools and a `qdbus` command.
pub open spec fn placement_supported(env: PlasmaEnvironment) -> bool {
    env.plasma_session && env.kconfig_tools && env.qdbus is Some
}

pub fn plasma_window_placement_supported(env: &PlasmaEnvironment) -> (r: bool)
    ensures
        r == placement_supported(*env),
{
    env.plasma_session && env.kconfig_tools && env.qdbus.is_some()
}

// ---------------------------------------------------------------------------
// The rule list
// ---------------------------------------------------------------------------
/// The trimmed, non-empty comma-separated ids.
pub open spec fn rule_ids_of(parts: Seq<Seq<char>>) -> Seq<Seq<char>>
    decreases parts.len(),
{
    if parts.len() == 0 {
        Seq::empty()
    } else if trim(parts.last()).len() > 0 {
        rule_ids_of(parts.drop_last()).push(trim(parts.last()))
    } else {
        rule_ids_of(parts.drop_last())
    }
}

pub open spec fn string_views(v: Seq<String>) -> Seq<Seq<char>> {
    v.map_values(|s: String| s@)
}

pub fn parse_rule_ids(value: &str) -> (r: Vec<String>)
    ensures
        string_views(r@) == rule_ids_of(split(value@, ',')),
{
    let c = chars_of(value);
    let parts = split_chars(&c, ',');
    let ghost ps = split(value@, ',');
    let mut r: Vec<String> = Vec::new();
    let mut i: usize = 0;
    while i < parts.len()
        invariant
            i <= parts@.len(),
            views(parts@) == ps,
            ps == split(value@, ','),
            string_views(r@) == rule_ids_of(ps.take(i as int)),
        decreases parts.len() - i,
    {
        proof {
            assert(ps.take(i + 1).drop_last() =~= ps.take(i as int));
            assert(ps[i as int] == parts@[i as int]@);
        }
        let t = trim_chars(&parts[i]);
        if t.len() > 0 {
            let ghost before = r@;
            r.push(string_of(&t));
            assert(string_views(r@) =~= string_views(before).push(t@));
        }
        i += 1;
    }
    assert(ps.take(parts.len() as int) =~= ps);
    r
}

/// Ids joined with commas.
pub open spec fn joined(ids: Seq<Seq<char>>) -> Seq<char>
    decreases ids.len(),
{
    if ids.len() == 0 {
        Seq::empty()
    } else if ids.len() == 1 {
        ids[0]
    } else {
        joined(ids.drop_last()) + ","@ + ids.last()
    }
}

fn join_ids(ids: &Vec<String>) -> (r: Vec<char>)
    ensures
        r@ == joined(string_views(ids@)),
{
    let ghost all = string_views(ids@);
    let mut r: Vec<char> = Vec::new();
    let mut i: usize = 0;
    while i < ids.len()
        invariant
            i <= ids@.len(),
            all == string_views(ids@),
            r@ == joined(all.take(i as int)),
        decreases ids.len() - i,
    {
        proof {
            assert(all.take(i + 1).drop_last() =~= all.take(i as int));
            assert(all[i as int] == ids@[i as int]@);
        }
        if i > 0 {
            append_str(&mut r, ",");
        }
        append_str(&mut r, ids[i].as_str());
        proof {
            if i == 0 {
                assert(r@ =~= all.take(1)[0]);
            }
        }
        i += 1;
    }
    assert(all.take(ids.len() as int) =~= all);
    r
}

// ---------------------------------------------------------------------------
// Synchronising the rule
// ---------------------------------------------------------------------------
/// What `kwinrulesrc` holds for the managed rule, as read before a sync.
pub struct RuleConfig {
    /// `rules` of the `General` group, if set.
    pub rules: Option<String>,
    /// `count` of the `General` group, if set.
    pub count: Option<String>,
    /// The keys set in the rule's own group, with their values.
    pub rule_values: Vec<(String, String)>,
}

/// One change to `kwinrulesrc`.
#[derive(Debug, Clone, PartialEq, Eq)]
pub enum ConfigEdit {
    Write { group: String, key: String, value: String },
    Delete { group: String, key: String },
}

/// The changes a sync makes, whether KWin must reload its rules, and
/// whether creating the rule waits for the window to be placed.
pub struct SyncPlan {
    pub edits: Vec<ConfigEdit>,
    pub reconfigure: bool,
    pub creation_pending: bool,
}

/// An edit as (group, key, written value or `None` for a deletion).
pub open spec fn edit_view(e: ConfigEdit) -> (Seq<char>, Seq<char>, Option<Seq<char>>) {
    match e {
        ConfigEdit::Write { group, key, value } => (group@, key@, Some(value@)),
        ConfigEdit::Delete { group, key } => (group@, key@, None),
    }
}

pub open spec fn edit_views(v: Seq<ConfigEdit>) -> Seq<(Seq<char>, Seq<char>, Option<Seq<char>>)> {
    v.map_values(|e: ConfigEdit| edit_view(e))
}

/// The value last recorded for a key of the rule's group.
pub open spec fn recorded(values: Seq<(Seq<char>, Seq<char>)>, key: Seq<char>) -> Option<Seq<char>>
    decreases values.len(),
{
    if values.len() == 0 {
        None
    } else if values.last().0 == key {
        Some(values.last().1)
    } else {
        recorded(values.drop_last(), key)
    }
}

/// What reading a key gives: its value, or the missing marker.
pub open spec fn read_value(v: Option<Seq<char>>) -> Seq<char> {
    match v {
        Some(x) => x,
        None => MISSING_VALUE@,
    }
}

pub open spec fn rule_key(values: Seq<(Seq<char>, Seq<char>)>, key: Seq<char>) -> Seq<char> {
    read_value(recorded(values, key))
}

pub type EditSeq = Seq<(Seq<char>, Seq<char>, Option<Seq<char>>)>;

/// A write of `value` to `key` unless it already holds it.
pub open spec fn write_if_changed(current: Seq<char>, group: Seq<char>, key: Seq<char>, value: Seq<char>) -> EditSeq {
    if current == value {
        Seq::empty()
    } else {
        seq![(group, key, Some(value))]
    }
}

/// A deletion of `key` unless it reads as missing.
pub open spec fn delete_if_present(current: Seq<char>, group: Seq<char>, key: Seq<char>) -> EditSeq {
    if current == MISSING_VALUE@ {
        Seq::empty()
    } else {
        seq![(group, key, None::<Seq<char>>)]
    }
}

/// The writes that record a rule list and its length.
pub open spec fn rule_list_edits(config_rules: Seq<char>, config_count: Seq<char>, ids: Seq<Seq<char>>) -> EditSeq {
    write_if_changed(config_rules, RULE_LIST_GROUP@, "rules"@, joined(ids)) + write_if_changed(
        config_count,
        RULE_LIST_GROUP@,
        "count"@,
        decimal(ids.len()),
    )
}

/// The writes of the managed entries from the `i`-th on.
pub open spec fn managed_writes(values: Seq<(Seq<char>, Seq<char>)>, entries: Seq<(Seq<char>, Seq<char>)>) -> EditSeq
    decreases entries.len(),
{
    if entries.len() == 0 {
        Seq::empty()
    } else {
        write_if_changed(rule_key(values, entries[0].0), RULE_ID@, entries[0].0, entries[0].1) + managed_writes(values, entries.drop_first())
    }
}

/// The deletions of the managed keys.
pub open spec fn managed_deletes(values: Seq<(Seq<char>, Seq<char>)>, entries: Seq<(Seq<char>, Seq<char>)>) -> EditSeq
    decreases entries.len(),
{
    if entries.len() == 0 {
        Seq::empty()
    } else {
        delete_if_present(rule_key(values, entries[0].0), RULE_ID@, entries[0].0) + managed_deletes(values, entries.drop_first())
    }
}

pub open spec fn without_rule(ids: Seq<Seq<char>>) -> Seq<Seq<char>>
    decreases ids.len(),
{
    if ids.len() == 0 {
        Seq::empty()
    } else if ids.last() == RULE_ID@ {
        without_rule(ids.drop_last())
    } else {
        without_rule(ids.drop_last()).push(ids.last())
    }
}

/// The sync of the placement rule, as (edits, reconfigure, creation pending),
/// or the error shown when placement is enabled outside Plasma.
///
/// Enabling installs or refreshes the rule: a missing rule waits until
/// creation is allowed (after the window was first placed), is then added to
/// the rule list, and a rule that was not scoped to the main window's title
/// loses its stale position.  Disabling removes the rule and its keys.  KWin
/// reloads its rules when anything changed.
pub open spec fn sync_of(enabled: bool, allow_creation: bool, env: PlasmaEnvironment, rules: Option<Seq<char>>, count: Option<Seq<char>>, values: Seq<(Seq<char>, Seq<char>)>) -> Result<(EditSeq, bool, bool), ()> {
    let ids = rule_ids_of(split(match rules { Some(r) => r, None => Seq::empty() }, ','));
    let listed = ids.contains(RULE_ID@);
    if enabled {
        if !placement_supported(env) {
            Err(())
        } else if !listed && !allow_creation {
            Ok((Seq::empty(), false, true))
        } else {
            let stale = listed && (rule_key(values, "title"@) != MAIN_WINDOW_TITLE@ || rule_key(values, "titlematch"@) != "1"@);
            let new_ids = if listed { ids } else { ids.push(RULE_ID@) };
            let edits = (if !listed || !stale { Seq::empty() } else { delete_if_present(rule_key(values, "position"@), RULE_ID@, "position"@) })
                + rule_list_edits(read_value(rules), read_value(count), new_ids)
                + managed_writes(values, managed_entries());
            Ok((edits, !listed || edits.len() > 0, false))
        }
    } else if !env.kconfig_tools {
        Ok((Seq::empty(), false, false))
    } else {
        let kept = without_rule(ids);
        let edits = (if kept.len() != ids.len() { rule_list_edits(read_value(rules), read_value(count), kept) } else { Seq::empty() })
            + managed_deletes(values, managed_entries())
            + delete_if_present(rule_key(values, "position"@), RULE_ID@, "position"@);
        Ok((edits, edits.len() > 0 && placement_supported(env), false))
    }
}

pub open spec fn value_views(v: Seq<(String, String)>) -> Seq<(Seq<char>, Seq<char>)> {
    v.map_values(|p: (String, String)| (p.0@, p.1@))
}

pub open spec fn opt_string(o: Option<String>) -> Option<Seq<char>> {
    match o {
        Some(s) => Some(s@),
        None => None,
    }
}

fn read_config(values: &Vec<(String, String)>, key: &str) -> (r: String)
    ensures
        r@ == rule_key(value_views(values@), key@),
{
    let k = chars_of(key);
    let ghost all = value_views(values@);
    let mut i = values.len();
    assert(all.take(i as int) =~= all);
    while i > 0
        invariant
            i <= values@.len(),
            k@ == key@,
            all == value_views(values@),
            recorded(all, key@) == recorded(all.take(i as int), key@),
        decreases i,
    {
        proof {
            assert(all.take(i as int).drop_last() =~= all.take(i - 1));
            assert(all.take(i as int).last() == all[i - 1]);
            assert(all[i - 1] == (values@[i - 1].0@, values@[i - 1].1@));
        }
        if chars_eq(&chars_of(values[i - 1].0.as_str()), &k) {
            return values[i - 1].1.clone();
        }
        i -= 1;
    }
    owned(MISSING_VALUE)
}

fn read_general(v: &Option<String>) -> (r: String)
    ensures
        r@ == read_value(opt_string(*v)),
{
    match v {
        Some(x) => x.clone(),
        None => owned(MISSING_VALUE),
    }
}

fn push_write_if_changed(edits: &mut Vec<ConfigEdit>, current: &str, group: &str, key: &str, value: &str)
    ensures
        edit_views(final(edits)@) == edit_views(old(edits)@) + write_if_changed(current@, group@, key@, value@),
{
    if !chars_eq(&chars_of(current), &chars_of(value)) {
        let ghost before = edits@;
        let e = ConfigEdit::Write { group: owned(group), key: owned(key), value: owned(value) };
        edits.push(e);
        assert(edit_views(edits@) =~= edit_views(before) + write_if_changed(current@, group@, key@, value@));
    } else {
        assert(edit_views(edits@) =~= edit_views(edits@) + write_if_changed(current@, group@, key@, value@));
    }
}

fn push_delete_if_present(edits: &mut Vec<ConfigEdit>, current: &str, group: &str, key: &str)
    ensures
        edit_views(final(edits)@) == edit_views(old(edits)@) + delete_if_present(current@, group@, key@),
{
    if !chars_eq(&chars_of(current), &chars_of(MISSING_VALUE)) {
        let ghost before = edits@;
        let e = ConfigEdit::Delete { group: owned(group), key: owned(key) };
        edits.push(e);
        assert(edit_views(edits@) =~= edit_views(before) + delete_if_present(current@, group@, key@));
    } else {
        assert(edit_views(edits@) =~= edit_views(edits@) + delete_if_present(current@, group@, key@));
    }
}

fn push_rule_list(edits: &mut Vec<ConfigEdit>, rules: &str, count: &str, ids: &Vec<String>)
    ensures
        edit_views(final(edits)@) == edit_views(old(edits)@) + rule_list_edits(rules@, count@, string_views(ids@)),
{
    let joined_ids = string_of(&join_ids(ids));
    let n = string_of(&decimal_chars(ids.len() as u128));
    push_write_if_changed(edits, rules, RULE_LIST_GROUP, "rules", joined_ids.as_str());
    push_write_if_changed(edits, count, RULE_LIST_GROUP, "count", n.as_str());
    proof {
        assert(string_views(ids@).len() == ids@.len());
    }
}

/// Why placement cannot be synchronised without the Plasma tools.
pub const PLACEMENT_UNSUPPORTED: &'static str = "KDE Plasma placement requires a Plasma session, kreadconfig6, kwriteconfig6 and qdbus";

/// Decides how to bring the placement rule in line with the setting.
pub fn sync_plasma_window_placement(
    enabled: bool,
    allow_rule_creation: bool,
    env: &PlasmaEnvironment,
    config: &RuleConfig,
) -> (r: Result<SyncPlan, String>)
    ensures
        r matches Ok(plan) ==> sync_of(enabled, allow_rule_creation, *env, opt_string(config.rules), opt_string(config.count), value_views(config.rule_values@))
            == Ok::<(EditSeq, bool, bool), ()>((edit_views(plan.edits@), plan.reconfigure, plan.creation_pending)),
        r is Err ==> sync_of(enabled, allow_rule_creation, *env, opt_string(config.rules), opt_string(config.count), value_views(config.rule_values@)) is Err,
        r matches Err(e) ==> e@ == PLACEMENT_UNSUPPORTED@,
{
    let ghost values = value_views(config.rule_values@);
    let rules_text = match &config.rules {
        Some(r) => r.clone(),
        None => owned(""),
    };
    proof {
        reveal_strlit("");
        assert(rules_text@ =~= match opt_string(config.rules) {
            Some(r) => r,
            None => Seq::<char>::empty(),
        });
    }
    let ids = parse_rule_ids(rules_text.as_str());
    let mut listed = false;
    let mut i: usize = 0;
    while i < ids.len()
        invariant
            i <= ids@.len(),
            listed == string_views(ids@).take(i as int).contains(RULE_ID@),
        decreases ids.len() - i,
    {
        proof {
            assert(string_views(ids@).take(i + 1) =~= string_views(ids@).take(i as int).push(ids@[i as int]@));
            vstd::seq_lib::lemma_seq_contains_after_push(string_views(ids@).take(i as int), ids@[i as int]@, RULE_ID@);
        }
        if chars_eq_str(&chars_of(ids[i].as_str()), RULE_ID) {
            listed = true;
        }
        i += 1;
    }
    assert(string_views(ids@).take(ids.len() as int) =~= string_views(ids@));
    let rules_cur = read_general(&config.rules);
    let count_cur = read_general(&config.count);
    let mut edits: Vec<ConfigEdit> = Vec::new();
    if enabled {
        if !plasma_window_placement_supported(env) {
            return Err(owned(PLACEMENT_UNSUPPORTED));
        }
        if !listed && !allow_rule_creation {
            assert(edit_views(edits@) =~= Seq::<(Seq<char>, Seq<char>, Option<Seq<char>>)>::empty());
            return Ok(SyncPlan { edits, reconfigure: false, creation_pending: true });
        }
        let title = read_config(&config.rule_values, "title");
        let titlematch = read_config(&config.rule_values, "titlematch");
        let stale = listed && (!chars_eq_str(&chars_of(title.as_str()), MAIN_WINDOW_TITLE)
            || !chars_eq_str(&chars_of(titlematch.as_str()), "1"));
        let mut new_ids = ids;
        if !listed {
            new_ids.push(owned(RULE_ID));
        } else if stale {
            let position = read_config(&config.rule_values, "position");
            push_delete_if_present(&mut edits, position.as_str(), RULE_ID, "position");
        }
        assert(edit_views(edits@) =~= (if !listed || !stale { Seq::empty() } else { delete_if_present(rule_key(values, "position"@), RULE_ID@, "position"@) }));
        proof {
            if !listed {
                assert(string_views(new_ids@) =~= string_views(ids@).push(RULE_ID@));
            }
        }
        push_rule_list(&mut edits, rules_cur.as_str(), count_cur.as_str(), &new_ids);
        let entries = managed_rule_entries();
        let mut k: usize = 0;
        let ghost pre = edit_views(edits@);
        assert(str_pairs(entries@).skip(0) =~= managed_entries());
        while k < entries.len()
            invariant
                k <= entries@.len(),
                str_pairs(entries@) == managed_entries(),
                values == value_views(config.rule_values@),
                edit_views(edits@) + managed_writes(values, str_pairs(entries@).skip(k as int)) == pre + managed_writes(values, managed_entries()),
            decreases entries.len() - k,
        {
            let (key, value) = entries[k];
            let current = read_config(&config.rule_values, key);
            let ghost before = edit_views(edits@);
            push_write_if_changed(&mut edits, current.as_str(), RULE_ID, key, value);
            proof {
                let rest = str_pairs(entries@).skip(k as int);
                assert(rest[0] == (key@, value@));
                assert(rest.drop_first() =~= str_pairs(entries@).skip(k + 1));
                assert(before + managed_writes(values, rest) =~= (before + write_if_changed(current@, RULE_ID@, key@, value@)) + managed_writes(values, rest.drop_first()));
            }
            k += 1;
        }
        proof {
            assert(str_pairs(entries@).skip(entries@.len() as int) =~= Seq::<(Seq<char>, Seq<char>)>::empty());
            assert(edit_views(edits@) + managed_writes(values, Seq::empty()) =~= edit_views(edits@));
        }
        let reconfigure = !listed || edits.len() > 0;
        Ok(SyncPlan { edits, reconfigure, creation_pending: false })
    } else if !env.kconfig_tools {
        assert(edit_views(edits@) =~= Seq::<(Seq<char>, Seq<char>, Option<Seq<char>>)>::empty());
        Ok(SyncPlan { edits, reconfigure: false, creation_pending: false })
    } else {
        let mut kept: Vec<String> = Vec::new();
        let mut j: usize = 0;
        while j < ids.len()
            invariant
                j <= ids@.len(),
                kept@.len() <= j,
                string_views(kept@) == without_rule(string_views(ids@).take(j as int)),
            decreases ids.len() - j,
        {
            proof {
                assert(string_views(ids@).take(j + 1).drop_last() =~= string_views(ids@).take(j as int));
                assert(string_views(ids@)[j as int] == ids@[j as int]@);
            }
            if !chars_eq_str(&chars_of(ids[j].as_str()), RULE_ID) {
                let ghost before = kept@;
                kept.push(ids[j].clone());
                assert(string_views(kept@) =~= string_views(before).push(ids@[j as int]@));
            }
            j += 1;
        }
        assert(string_views(ids@).take(ids.len() as int) =~= string_views(ids@));
        if kept.len() != ids.len() {
            push_rule_list(&mut edits, rules_cur.as_str(), count_cur.as_str(), &kept);
        }
        let entries = managed_rule_entries();
        let mut k: usize = 0;
        let ghost pre = edit_views(edits@);
        assert(str_pairs(entries@).skip(0) =~= managed_entries());
        while k < entries.len()
            invariant
                k <= entries@.len(),
                str_pairs(entries@) == managed_entries(),
                values == value_views(config.rule_values@),
                edit_views(edits@) + managed_deletes(values, str_pairs(entries@).skip(k as int)) == pre + managed_deletes(values, managed_entries()),
            decreases entries.len() - k,
        {
            let (key, _value) = entries[k];
            let current = read_config(&config.rule_values, key);
            let ghost before = edit_views(edits@);
            push_delete_if_present(&mut edits, current.as_str(), RULE_ID, key);
            proof {
                let rest = str_pairs(entries@).skip(k as int);
                assert(rest[0].0 == key@);
                assert(rest.drop_first() =~= str_pairs(entries@).skip(k + 1));
                assert(before + managed_deletes(values, rest) =~= (before + delete_if_present(current@, RULE_ID@, key@)) + managed_deletes(values, rest.drop_first()));
            }
            k += 1;
        }
        proof {
            assert(str_pairs(entries@).skip(entries@.len() as int) =~= Seq::<(Seq<char>, Seq<char>)>::empty());
            assert(edit_views(edits@) + managed_deletes(values, Seq::empty()) =~= edit_views(edits@));
        }
        let position = read_config(&config.rule_values, "position");
        push_delete_if_present(&mut edits, position.as_str(), RULE_ID, "position");
        let reconfigure = edits.len() > 0 && plasma_window_placement_supported(env);
        Ok(SyncPlan { edits, reconfigure, creation_pending: false })
    }
}

} // verus!
