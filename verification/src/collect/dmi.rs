//! `dmidecode` output: records, their fields, and the values worth keeping.
use vstd::prelude::*;
use crate::collect::memory::{is_specific_locator, locator_is_specific, slot_id};
use crate::text::{
    append_chars, append_str, decimal, chars_eq, chars_eq_str, chars_of, contains_seq, contains_str,
    index_of_seq, index_of_ws, lines, lines_of, lower_seq, opt_view, parse_unsigned,
    parse_unsigned_chars, slice_chars, split, split_chars, split_first_ws, split_first_ws_chars,
    split_once, split_once_chars, split_seq, split_seq_chars, strip_prefix, strip_prefix_str,
    strip_suffix, strip_suffix_str, string_of, to_lower, trim, trim_chars, views, words, words_of,
};

verus! {

// ---------------------------------------------------------------------------
// Placeholders
// ---------------------------------------------------------------------------
/// Values that firmware vendors leave in place of real data.  `none` counts
/// as a placeholder only when `reject_none` holds.
pub open spec fn is_placeholder_value(value: Seq<char>, reject_none: bool) -> bool {
    let n = lower_seq(trim(value));
    n.len() == 0 || (reject_none && n == "none"@) || n == "unknown"@ || n == "not specified"@ || n
        == "not installed"@ || n == "default string"@ || n == "to be filled by o.e.m."@ || n
        == "to be filled by oem"@ || n == "system product name"@ || n == "system version"@ || n
        == "system serial number"@ || n == "sku"@
}

pub fn is_placeholder(value: &str, reject_none: bool) -> (r: bool)
    ensures
        r == is_placeholder_value(value@, reject_none),
{
    let c = chars_of(value);
    placeholder_chars(&c, reject_none)
}

fn placeholder_chars(value: &[char], reject_none: bool) -> (r: bool)
    ensures
        r == is_placeholder_value(value@, reject_none),
{
    let n = to_lower(&trim_chars(value));
    n.len() == 0 || (reject_none && chars_eq_str(&n, "none")) || chars_eq_str(&n, "unknown")
        || chars_eq_str(&n, "not specified") || chars_eq_str(&n, "not installed")
        || chars_eq_str(&n, "default string") || chars_eq_str(&n, "to be filled by o.e.m.")
        || chars_eq_str(&n, "to be filled by oem") || chars_eq_str(&n, "system product name")
        || chars_eq_str(&n, "system version") || chars_eq_str(&n, "system serial number")
        || chars_eq_str(&n, "sku")
}

/// A value that is not a placeholder, `none` included.
pub open spec fn is_useful(value: Seq<char>) -> bool {
    !is_placeholder_value(value, true)
}

pub fn is_useful_value(value: &str) -> (r: bool)
    ensures
        r == is_useful(value@),
{
    !is_placeholder(value, true)
}

// ---------------------------------------------------------------------------
// Fields
// ---------------------------------------------------------------------------
/// The field name of a `Key Name: value` line: trimmed, ASCII lower-cased,
/// spaces and dashes turned into underscores.
pub open spec fn field_key(k: Seq<char>) -> Seq<char> {
    lower_seq(trim(k)).map_values(|c: char| if c == ' ' || c == '-' { '_' } else { c })
}

/// The fields of a block of lines, in order; lines without a colon or with
/// an empty value give none.
pub open spec fn block_fields(ls: Seq<Seq<char>>) -> Seq<(Seq<char>, Seq<char>)>
    decreases ls.len(),
{
    if ls.len() == 0 {
        Seq::empty()
    } else {
        match split_once(trim(ls.last()), ':') {
            Some((k, v)) => if trim(v).len() > 0 {
                block_fields(ls.drop_last()).push((field_key(k), trim(v)))
            } else {
                block_fields(ls.drop_last())
            },
            None => block_fields(ls.drop_last()),
        }
    }
}

/// The value of the last field named `key`: later lines replace earlier ones.
pub open spec fn field_value(fields: Seq<(Seq<char>, Seq<char>)>, key: Seq<char>) -> Option<Seq<char>>
    decreases fields.len(),
{
    if fields.len() == 0 {
        None
    } else if fields.last().0 == key {
        Some(fields.last().1)
    } else {
        field_value(fields.drop_last(), key)
    }
}

pub open spec fn pair_views(v: Seq<(String, String)>) -> Seq<(Seq<char>, Seq<char>)> {
    v.map_values(|p: (String, String)| (p.0@, p.1@))
}

/// The named fields of a record body.
pub struct DmiFields {
    entries: Vec<(String, String)>,
}

impl View for DmiFields {
    type V = Seq<(Seq<char>, Seq<char>)>;

    closed spec fn view(&self) -> Seq<(Seq<char>, Seq<char>)> {
        pair_views(self.entries@)
    }
}

fn key_chars(k: &[char]) -> (r: Vec<char>)
    ensures
        r@ == field_key(k@),
{
    let l = to_lower(&trim_chars(k));
    let mut r: Vec<char> = Vec::new();
    let mut i: usize = 0;
    while i < l.len()
        invariant
            i <= l@.len(),
            l@ == lower_seq(trim(k@)),
            r@ == l@.take(i as int).map_values(|c: char| if c == ' ' || c == '-' { '_' } else { c }),
        decreases l.len() - i,
    {
        let c = l[i];
        r.push(if c == ' ' || c == '-' { '_' } else { c });
        assert(r@ =~= l@.take(i + 1).map_values(|c: char| if c == ' ' || c == '-' { '_' } else { c }));
        i += 1;
    }
    assert(l@.take(l.len() as int) =~= l@);
    r
}

/// Parses the `Key: value` lines of a record body.
pub fn parse_fields(block: &str) -> (r: DmiFields)
    ensures
        r@ == block_fields(lines(block@)),
{
    let c = chars_of(block);
    let ls = lines_of(&c);
    let mut entries: Vec<(String, String)> = Vec::new();
    let mut i: usize = 0;
    while i < ls.len()
        invariant
            i <= ls@.len(),
            views(ls@) == lines(block@),
            pair_views(entries@) == block_fields(lines(block@).take(i as int)),
        decreases ls.len() - i,
    {
        proof {
            assert(lines(block@).take(i + 1).drop_last() =~= lines(block@).take(i as int));
            assert(lines(block@)[i as int] == ls@[i as int]@);
        }
        let t = trim_chars(&ls[i]);
        match split_once_chars(&t, ':') {
            Some((k, v)) => {
                let value = trim_chars(&v);
                if value.len() > 0 {
                    let key = key_chars(&k);
                    let e = (string_of(&key), string_of(&value));
                    let ghost old_entries = entries@;
                    entries.push(e);
                    assert(pair_views(entries@) =~= pair_views(old_entries).push((e.0@, e.1@)));
                }
            },
            None => {},
        }
        i += 1;
    }
    assert(lines(block@).take(ls.len() as int) =~= lines(block@));
    DmiFields { entries }
}

impl DmiFields {
    /// The value of field `key`.
    pub fn get(&self, key: &str) -> (r: Option<String>)
        ensures
            opt_view(r) == field_value(self@, key@),
    {
        let k = chars_of(key);
        let ghost all = self@;
        let mut i = self.entries.len();
        assert(all.take(i as int) =~= all);
        while i > 0
            invariant
                i <= self.entries@.len(),
                k@ == key@,
                all == pair_views(self.entries@),
                field_value(all, key@) == field_value(all.take(i as int), key@),
            decreases i,
        {
            proof {
                assert(all.take(i as int).drop_last() =~= all.take(i - 1));
                assert(all.take(i as int).last() == all[i - 1]);
                assert(all[i - 1] == (self.entries@[i - 1].0@, self.entries@[i - 1].1@));
            }
            let ec = chars_of(self.entries[i - 1].0.as_str());
            if chars_eq(&ec, &k) {
                return Some(self.entries[i - 1].1.clone());
            }
            i -= 1;
        }
        None
    }
}

pub open spec fn trimmed(v: Option<Seq<char>>) -> Option<Seq<char>> {
    match v {
        Some(x) => Some(trim(x)),
        None => None,
    }
}

/// A field's trimmed value.
pub fn raw_field(fields: &DmiFields, key: &str) -> (r: Option<String>)
    ensures
        opt_view(r) == trimmed(field_value(fields@, key@)),
{
    match fields.get(key) {
        Some(v) => {
            let t = trim_chars(&chars_of(v.as_str()));
            Some(string_of(&t))
        },
        None => None,
    }
}

/// A field's trimmed value unless it is a placeholder.
pub open spec fn useful_field(fields: Seq<(Seq<char>, Seq<char>)>, key: Seq<char>) -> Option<Seq<char>> {
    match trimmed(field_value(fields, key)) {
        Some(v) => if is_useful(v) {
            Some(v)
        } else {
            None
        },
        None => None,
    }
}

pub fn valid_field(fields: &DmiFields, key: &str) -> (r: Option<String>)
    ensures
        opt_view(r) == useful_field(fields@, key@),
{
    match raw_field(fields, key) {
        Some(v) => if is_useful_value(v.as_str()) {
            Some(v)
        } else {
            None
        },
        None => None,
    }
}

/// A field's trimmed value unless it is a placeholder other than `None`.
pub open spec fn field_or_none(fields: Seq<(Seq<char>, Seq<char>)>, key: Seq<char>) -> Option<Seq<char>> {
    match trimmed(field_value(fields, key)) {
        Some(v) => if !is_placeholder_value(v, false) {
            Some(v)
        } else {
            None
        },
        None => None,
    }
}

pub fn field_allow_none(fields: &DmiFields, key: &str) -> (r: Option<String>)
    ensures
        opt_view(r) == field_or_none(fields@, key@),
{
    match raw_field(fields, key) {
        Some(v) => if !is_placeholder(v.as_str(), false) {
            Some(v)
        } else {
            None
        },
        None => None,
    }
}

// ---------------------------------------------------------------------------
// Records
// ---------------------------------------------------------------------------
/// Lines joined with `\n`.
pub open spec fn join_lines(ls: Seq<Seq<char>>) -> Seq<char>
    decreases ls.len(),
{
    if ls.len() == 0 {
        Seq::empty()
    } else if ls.len() == 1 {
        ls[0]
    } else {
        join_lines(ls.drop_last()) + "\n"@ + ls.last()
    }
}

/// The type and body of one `Handle ` chunk: the type follows `DMI type `
/// in the header line, up to a comma; the body is the other lines.
pub open spec fn record_of(chunk: Seq<char>) -> Option<(u32, Seq<char>)> {
    let ls = lines(chunk);
    if ls.len() == 0 {
        None
    } else {
        let parts = split_seq(ls[0], "DMI type "@);
        if parts.len() < 2 {
            None
        } else {
            match parse_unsigned(trim(split(parts[1], ',')[0]), 10, u32::MAX as nat) {
                Some(t) => Some((t as u32, join_lines(ls.drop_first()))),
                None => None,
            }
        }
    }
}

/// The records of the chunks, in order, skipping chunks that are not records.
pub open spec fn chunk_records(chunks: Seq<Seq<char>>) -> Seq<(u32, Seq<char>)>
    decreases chunks.len(),
{
    if chunks.len() == 0 {
        Seq::empty()
    } else {
        match record_of(chunks.last()) {
            Some(r) => chunk_records(chunks.drop_last()).push(r),
            None => chunk_records(chunks.drop_last()),
        }
    }
}

/// The records of `dmidecode` output: each starts with `Handle `.
pub open spec fn dmi_records(text: Seq<char>) -> Seq<(u32, Seq<char>)> {
    let chunks = split_seq(text, "Handle "@);
    chunk_records(if chunks.len() > 0 { chunks.drop_first() } else { chunks })
}

/// One `dmidecode` record: its type and the lines after its header.
pub struct DmiRecord {
    pub type_id: u32,
    pub body: String,
}

pub open spec fn record_views(v: Seq<DmiRecord>) -> Seq<(u32, Seq<char>)> {
    v.map_values(|r: DmiRecord| (r.type_id, r.body@))
}

fn join_lines_chars(ls: &Vec<Vec<char>>, from: usize) -> (r: Vec<char>)
    requires
        from <= ls@.len(),
    ensures
        r@ == join_lines(views(ls@).skip(from as int)),
{
    let ghost all = views(ls@).skip(from as int);
    let mut r: Vec<char> = Vec::new();
    let mut i = from;
    assert(all.take(0) =~= Seq::<Seq<char>>::empty());
    while i < ls.len()
        invariant
            from <= i <= ls@.len(),
            all == views(ls@).skip(from as int),
            r@ == join_lines(all.take(i - from)),
        decreases ls.len() - i,
    {
        proof {
            assert(all.take(i - from + 1).drop_last() =~= all.take(i - from));
            assert(all[i - from] == ls@[i as int]@);
        }
        if i > from {
            append_str(&mut r, "\n");
        }
        append_chars(&mut r, &ls[i]);
        proof {
            if i == from {
                assert(r@ =~= all.take(1)[0]);
            } else {
                reveal_strlit("\n");
            }
        }
        i += 1;
    }
    assert(all.take(ls.len() - from) =~= all);
    r
}

fn record_of_chars(chunk: &[char]) -> (r: Option<DmiRecord>)
    ensures
        r matches Some(rec) ==> record_of(chunk@) == Some((rec.type_id, rec.body@)),
        r is None ==> record_of(chunk@) is None,
{
    let ls = lines_of(chunk);
    if ls.len() == 0 {
        return None;
    }
    let sep = chars_of("DMI type ");
    proof {
        reveal_strlit("DMI type ");
        assert(views(ls@)[0] == ls@[0]@);
    }
    let parts = split_seq_chars(&ls[0], &sep);
    if parts.len() < 2 {
        return None;
    }
    proof {
        assert(views(parts@)[1] == parts@[1]@);
    }
    let pieces = split_chars(&parts[1], ',');
    proof {
        crate::text::lemma_split_nonempty(parts@[1]@, ',');
        assert(views(pieces@)[0] == pieces@[0]@);
    }
    let t = trim_chars(&pieces[0]);
    match parse_unsigned_chars(&t, 10, u32::MAX as u64) {
        Some(type_id) => {
            let body = join_lines_chars(&ls, 1);
            proof {
                assert(views(ls@).skip(1) =~= views(ls@).drop_first());
            }
            Some(DmiRecord { type_id: type_id as u32, body: string_of(&body) })
        },
        None => None,
    }
}

/// Splits `dmidecode` output into records.
pub fn parse_records(text: &str) -> (r: Vec<DmiRecord>)
    ensures
        record_views(r@) == dmi_records(text@),
{
    let c = chars_of(text);
    let sep = chars_of("Handle ");
    proof {
        reveal_strlit("Handle ");
    }
    let chunks = split_seq_chars(&c, &sep);
    let ghost all = split_seq(text@, "Handle "@);
    let ghost rest = if all.len() > 0 { all.drop_first() } else { all };
    let mut r: Vec<DmiRecord> = Vec::new();
    if chunks.len() == 0 {
        assert(rest =~= Seq::<Seq<char>>::empty());
        return r;
    }
    let mut i: usize = 1;
    assert(rest.take(0) =~= Seq::<Seq<char>>::empty());
    while i < chunks.len()
        invariant
            1 <= i <= chunks@.len(),
            views(chunks@) == all,
            all == split_seq(text@, "Handle "@),
            rest == all.drop_first(),
            record_views(r@) == chunk_records(rest.take(i - 1)),
        decreases chunks.len() - i,
    {
        proof {
            assert(rest.take(i as int).drop_last() =~= rest.take(i - 1));
            assert(rest[i - 1] == chunks@[i as int]@);
        }
        match record_of_chars(&chunks[i]) {
            Some(rec) => {
                let ghost v = (rec.type_id, rec.body@);
                r.push(rec);
                assert(record_views(r@) =~= record_views(r@.drop_last()).push(v));
            },
            None => {},
        }
        i += 1;
    }
    assert(rest.take(chunks.len() - 1) =~= rest);
    r
}

/// Whether a line is exactly `heading` after trimming, etc.: the values
/// listed under a heading line, up to the first empty line or `key: value`
/// line; placeholder values are skipped.
pub open spec fn list_fold(ls: Seq<Seq<char>>, heading: Seq<char>) -> (Seq<Seq<char>>, bool, bool)
    decreases ls.len(),
{
    if ls.len() == 0 {
        (Seq::empty(), false, false)
    } else {
        let (vals, collecting, done) = list_fold(ls.drop_last(), heading);
        let t = trim(ls.last());
        if done {
            (vals, collecting, done)
        } else if t == heading {
            (vals, true, false)
        } else if !collecting {
            (vals, collecting, false)
        } else if t.len() == 0 || contains_seq(t, ":"@) {
            (vals, collecting, true)
        } else if is_useful(t) {
            (vals.push(t), collecting, false)
        } else {
            (vals, collecting, false)
        }
    }
}

/// The useful values of the `key: value` lines whose key is `name`,
/// ignoring ASCII case.
pub open spec fn named_values(ls: Seq<Seq<char>>, name: Seq<char>) -> Seq<Seq<char>>
    decreases ls.len(),
{
    if ls.len() == 0 {
        Seq::empty()
    } else {
        let rest = named_values(ls.drop_last(), name);
        match split_once(trim(ls.last()), ':') {
            Some((k, v)) => if lower_seq(trim(k)) == lower_seq(name) && is_useful(trim(v)) {
                rest.push(trim(v))
            } else {
                rest
            },
            None => rest,
        }
    }
}

impl DmiRecord {
    pub fn fields(&self) -> (r: DmiFields)
        ensures
            r@ == block_fields(lines(self.body@)),
    {
        parse_fields(self.body.as_str())
    }

    /// The useful values of the lines named `name`.
    pub fn values_named(&self, name: &str) -> (r: Vec<String>)
        ensures
            r@.map_values(|s: String| s@) == named_values(lines(self.body@), name@),
    {
        let c = chars_of(self.body.as_str());
        let ls = lines_of(&c);
        let want = to_lower(&chars_of(name));
        let mut r: Vec<String> = Vec::new();
        let mut i: usize = 0;
        while i < ls.len()
            invariant
                i <= ls@.len(),
                views(ls@) == lines(self.body@),
                want@ == lower_seq(name@),
                r@.map_values(|s: String| s@) == named_values(lines(self.body@).take(i as int), name@),
            decreases ls.len() - i,
        {
            proof {
                assert(lines(self.body@).take(i + 1).drop_last() =~= lines(self.body@).take(i as int));
                assert(lines(self.body@)[i as int] == ls@[i as int]@);
            }
            let t = trim_chars(&ls[i]);
            match split_once_chars(&t, ':') {
                Some((k, v)) => {
                    let key = to_lower(&trim_chars(&k));
                    let value = trim_chars(&v);
                    let vs = string_of(&value);
                    if chars_eq(&key, &want) && is_useful_value(vs.as_str()) {
                        let ghost before = r@;
                        r.push(vs);
                        assert(r@.map_values(|s: String| s@) =~= before.map_values(|s: String| s@).push(value@));
                    }
                },
                None => {},
            }
            i += 1;
        }
        assert(lines(self.body@).take(ls.len() as int) =~= lines(self.body@));
        r
    }

    /// The values listed on the lines under a heading line such as `Characteristics:`.
    pub fn list_after(&self, heading: &str) -> (r: Vec<String>)
        ensures
            r@.map_values(|s: String| s@) == list_fold(lines(self.body@), heading@).0,
    {
        let c = chars_of(self.body.as_str());
        let ls = lines_of(&c);
        let h = chars_of(heading);
        let mut r: Vec<String> = Vec::new();
        let mut collecting = false;
        let mut done = false;
        let mut i: usize = 0;
        while i < ls.len()
            invariant
                i <= ls@.len(),
                views(ls@) == lines(self.body@),
                h@ == heading@,
                (r@.map_values(|s: String| s@), collecting, done) == list_fold(lines(self.body@).take(i as int), heading@),
            decreases ls.len() - i,
        {
            proof {
                assert(lines(self.body@).take(i + 1).drop_last() =~= lines(self.body@).take(i as int));
                assert(lines(self.body@)[i as int] == ls@[i as int]@);
            }
            if !done {
                let t = trim_chars(&ls[i]);
                if chars_eq(&t, &h) {
                    collecting = true;
                } else if !collecting {
                } else if t.len() == 0 || contains_str(&t, ":") {
                    done = true;
                } else {
                    let ts = string_of(&t);
                    if is_useful_value(ts.as_str()) {
                        let ghost before = r@;
                        r.push(ts);
                        assert(r@.map_values(|s: String| s@) =~= before.map_values(|s: String| s@).push(t@));
                    }
                }
            }
            i += 1;
        }
        assert(lines(self.body@).take(ls.len() as int) =~= lines(self.body@));
        r
    }
}

// ---------------------------------------------------------------------------
// Values
// ---------------------------------------------------------------------------
pub open spec fn opt_str(o: Option<&str>) -> Option<Seq<char>> {
    match o {
        Some(s) => Some(s@),
        None => None,
    }
}

/// The label of a memory slot: `<bank> / <locator>` when the bank is a
/// specific slot name and there is a locator, else whichever of the locator
/// and the bank names a slot.
pub open spec fn slot_label(locator: Option<Seq<char>>, bank: Option<Seq<char>>) -> Option<Seq<char>> {
    match (locator, bank) {
        (Some(l), Some(b)) if is_specific_locator(b) => Some(b + " / "@ + l),
        (Some(l), _) if is_specific_locator(l) => Some(l),
        (_, Some(b)) if is_specific_locator(b) => Some(b),
        _ => None,
    }
}

pub fn memory_slot_label(locator: Option<&str>, bank: Option<&str>) -> (r: Option<String>)
    ensures
        opt_view(r) == slot_label(opt_str(locator), opt_str(bank)),
{
    let bank_specific = match bank {
        Some(b) => locator_is_specific(b),
        None => false,
    };
    match (locator, bank) {
        (Some(l), Some(b)) if bank_specific => {
            let mut v: Vec<char> = Vec::new();
            append_str(&mut v, b);
            append_str(&mut v, " / ");
            append_str(&mut v, l);
            Some(string_of(&v))
        },
        (Some(l), _) if locator_is_specific(l) => Some(crate::text::owned(l)),
        (_, Some(b)) if bank_specific => Some(crate::text::owned(b)),
        _ => None,
    }
}

/// A socket name compared without case or a leading `socket `.
pub open spec fn socket_name(value: Seq<char>) -> Seq<char> {
    let n = lower_seq(trim(value));
    match strip_prefix(n, "socket "@) {
        Some(rest) => rest,
        None => n,
    }
}

pub fn normalize_socket_name(value: &str) -> (r: String)
    ensures
        r@ == socket_name(value@),
{
    let n = to_lower(&trim_chars(&chars_of(value)));
    match strip_prefix_str(&n, "socket ") {
        Some(rest) => string_of(&rest),
        None => string_of(&n),
    }
}

/// The processor upgrade worth reporting: the upgrade field unless it
/// names the same socket as the socket designation.
pub open spec fn reported_upgrade(socket: Option<Seq<char>>, upgrade: Option<Seq<char>>) -> Option<Seq<char>> {
    match upgrade {
        Some(u) => match socket {
            Some(s) if socket_name(s) == socket_name(u) => None,
            _ => Some(u),
        },
        None => None,
    }
}

pub fn processor_upgrade(socket: Option<&str>, upgrade: Option<&str>) -> (r: Option<String>)
    ensures
        opt_view(r) == reported_upgrade(opt_str(socket), opt_str(upgrade)),
{
    match upgrade {
        Some(u) => {
            let nu = normalize_socket_name(u);
            let duplicate = match socket {
                Some(s) => {
                    let ns = normalize_socket_name(s);
                    chars_eq(&chars_of(ns.as_str()), &chars_of(nu.as_str()))
                },
                None => false,
            };
            if duplicate {
                None
            } else {
                Some(crate::text::owned(u))
            }
        },
        None => None,
    }
}

/// A yes/no style field value, ignoring case and surrounding whitespace.
pub open spec fn bool_value(value: Seq<char>) -> Option<bool> {
    let n = lower_seq(trim(value));
    if n == "yes"@ || n == "true"@ || n == "enabled"@ || n == "supported"@ {
        Some(true)
    } else if n == "no"@ || n == "false"@ || n == "disabled"@ || n == "not supported"@ {
        Some(false)
    } else {
        None
    }
}

pub fn parse_bool(value: &str) -> (r: Option<bool>)
    ensures
        r == bool_value(value@),
{
    let n = to_lower(&trim_chars(&chars_of(value)));
    if chars_eq_str(&n, "yes") || chars_eq_str(&n, "true") || chars_eq_str(&n, "enabled")
        || chars_eq_str(&n, "supported") {
        Some(true)
    } else if chars_eq_str(&n, "no") || chars_eq_str(&n, "false") || chars_eq_str(&n, "disabled")
        || chars_eq_str(&n, "not supported") {
        Some(false)
    } else {
        None
    }
}

/// The AGESA version in an OEM string: what follows `agesa` (any case),
/// trimmed, and when it starts with `!`, what follows its first whitespace.
pub open spec fn agesa_version(value: Seq<char>) -> Option<Seq<char>> {
    match index_of_seq(lower_seq(value), "agesa"@) {
        Some(i) => {
            let rest = trim(value.skip(i + 5));
            let rest = if rest.len() > 0 && rest[0] == '!' {
                match split_first_ws(rest).1 {
                    Some(after) => trim(after),
                    None => Seq::empty(),
                }
            } else {
                rest
            };
            if rest.len() > 0 {
                Some(rest)
            } else {
                None
            }
        },
        None => None,
    }
}

pub fn parse_agesa(value: &str) -> (r: Option<String>)
    ensures
        opt_view(r) == agesa_version(value@),
{
    let v = chars_of(value);
    let l = to_lower(&v);
    let pat = chars_of("agesa");
    proof {
        reveal_strlit("agesa");
        assert(l@.skip(0) =~= l@);
    }
    let i = match crate::text::find_seq_from(&l, 0, &pat) {
        Some(i) => i,
        None => return None,
    };
    proof {
        crate::text::lemma_index_of_seq_bounds(l@, pat@);
    }
    let rest = trim_chars(&slice_chars(&v, i + 5, v.len()));
    proof {
        assert(v@.subrange(i + 5, v@.len() as int) =~= v@.skip(i + 5));
    }
    let rest = if rest.len() > 0 && rest[0] == '!' {
        match split_first_ws_chars(&rest).1 {
            Some(after) => trim_chars(&after),
            None => Vec::new(),
        }
    } else {
        rest
    };
    if rest.len() > 0 {
        Some(string_of(&rest))
    } else {
        None
    }
}

/// The SMBIOS version announced by a `SMBIOS <version> present.` line.
pub open spec fn smbios_line_version(line: Seq<char>) -> Option<Seq<char>> {
    match strip_prefix(trim(line), "SMBIOS "@) {
        Some(a) => match strip_suffix(a, " present."@) {
            Some(v) => if trim(v).len() > 0 {
                Some(trim(v))
            } else {
                None
            },
            None => None,
        },
        None => None,
    }
}

/// The version of the first line that announces one.
pub open spec fn first_smbios_version(ls: Seq<Seq<char>>) -> Option<Seq<char>>
    decreases ls.len(),
{
    if ls.len() == 0 {
        None
    } else {
        match smbios_line_version(ls[0]) {
            Some(v) => Some(v),
            None => first_smbios_version(ls.drop_first()),
        }
    }
}

pub fn parse_smbios_version(text: &str) -> (r: Option<String>)
    ensures
        opt_view(r) == first_smbios_version(lines(text@)),
{
    let c = chars_of(text);
    let ls = lines_of(&c);
    let ghost all = lines(text@);
    let mut i: usize = 0;
    assert(all.skip(0) =~= all);
    while i < ls.len()
        invariant
            i <= ls@.len(),
            views(ls@) == all,
            all == lines(text@),
            first_smbios_version(all) == first_smbios_version(all.skip(i as int)),
        decreases ls.len() - i,
    {
        proof {
            assert(all.skip(i as int)[0] == ls@[i as int]@);
            assert(all.skip(i as int).drop_first() =~= all.skip(i + 1));
        }
        let t = trim_chars(&ls[i]);
        match strip_prefix_str(&t, "SMBIOS ") {
            Some(a) => match strip_suffix_str(&a, " present.") {
                Some(v) => {
                    let tv = trim_chars(&v);
                    if tv.len() > 0 {
                        return Some(string_of(&tv));
                    }
                },
                None => {},
            },
            None => {},
        }
        i += 1;
    }
    None
}

/// The number of memory slots a type 16 record declares for system memory.
pub open spec fn memory_slot_count(type_id: u32, fields: Seq<(Seq<char>, Seq<char>)>) -> Option<nat> {
    if type_id != 16 {
        None
    } else if trimmed(field_value(fields, "use"@)) matches Some(u) && lower_seq(u) != lower_seq("System Memory"@) {
        None
    } else {
        match trimmed(field_value(fields, "number_of_devices"@)) {
            Some(n) => parse_unsigned(n, 10, u64::MAX as nat),
            None => None,
        }
    }
}

pub fn system_memory_slot_count(record: &DmiRecord) -> (r: Option<u64>)
    ensures
        r matches Some(n) ==> memory_slot_count(record.type_id, block_fields(lines(record.body@))) == Some(n as nat),
        r is None ==> memory_slot_count(record.type_id, block_fields(lines(record.body@))) is None,
{
    if record.type_id != 16 {
        return None;
    }
    let fields = record.fields();
    match raw_field(&fields, "use") {
        Some(u) => {
            let lu = to_lower(&chars_of(u.as_str()));
            let want = to_lower(&chars_of("System Memory"));
            if !chars_eq(&lu, &want) {
                return None;
            }
        },
        None => {},
    }
    match raw_field(&fields, "number_of_devices") {
        Some(n) => parse_unsigned_chars(&chars_of(n.as_str()), 10, u64::MAX),
        None => None,
    }
}

/// The multiplier to bytes of a capacity unit (lower-cased).
pub open spec fn capacity_multiplier(unit: Seq<char>) -> Option<u64> {
    if unit == "b"@ || unit == "bytes"@ {
        Some(1)
    } else if unit == "kb"@ || unit == "kib"@ {
        Some(1024)
    } else if unit == "mb"@ || unit == "mib"@ {
        Some(1_048_576)
    } else if unit == "gb"@ || unit == "gib"@ {
        Some(1_073_741_824)
    } else if unit == "tb"@ || unit == "tib"@ {
        Some(1_099_511_627_776)
    } else {
        None
    }
}

/// The multiplier to hertz of a frequency unit (lower-cased).
pub open spec fn frequency_multiplier(unit: Seq<char>) -> Option<u64> {
    if unit == "hz"@ {
        Some(1)
    } else if unit == "khz"@ {
        Some(1_000)
    } else if unit == "mhz"@ {
        Some(1_000_000)
    } else if unit == "ghz"@ {
        Some(1_000_000_000)
    } else {
        None
    }
}

/// The amount and the unit's multiplier of a quantity such as `16 GB` or
/// `3200 MT/s`: the first word is the amount (still to be parsed), the
/// second the unit.
pub open spec fn quantity_parts(value: Seq<char>, frequency: bool) -> Option<(Seq<char>, u64)> {
    let w = words(value);
    if w.len() < 2 {
        None
    } else {
        match if frequency {
            frequency_multiplier(lower_seq(w[1]))
        } else {
            capacity_multiplier(lower_seq(w[1]))
        } {
            Some(m) => Some((w[0], m)),
            None => None,
        }
    }
}

/// Splits a capacity (`frequency` false) or a frequency (`frequency`
/// true) into its amount text and unit multiplier.
pub fn split_quantity(value: &str, frequency: bool) -> (r: Option<(String, u64)>)
    ensures
        match r {
            Some((a, m)) => quantity_parts(value@, frequency) == Some((a@, m)),
            None => quantity_parts(value@, frequency) is None,
        },
{
    let w = words_of(&chars_of(value));
    if w.len() < 2 {
        return None;
    }
    assert(views(w@)[0] == w@[0]@);
    assert(views(w@)[1] == w@[1]@);
    let u = to_lower(&w[1]);
    let m: Option<u64> = if frequency {
        if chars_eq_str(&u, "hz") {
            Some(1)
        } else if chars_eq_str(&u, "khz") {
            Some(1_000)
        } else if chars_eq_str(&u, "mhz") {
            Some(1_000_000)
        } else if chars_eq_str(&u, "ghz") {
            Some(1_000_000_000)
        } else {
            None
        }
    } else {
        if chars_eq_str(&u, "b") || chars_eq_str(&u, "bytes") {
            Some(1)
        } else if chars_eq_str(&u, "kb") || chars_eq_str(&u, "kib") {
            Some(1024)
        } else if chars_eq_str(&u, "mb") || chars_eq_str(&u, "mib") {
            Some(1_048_576)
        } else if chars_eq_str(&u, "gb") || chars_eq_str(&u, "gib") {
            Some(1_073_741_824)
        } else if chars_eq_str(&u, "tb") || chars_eq_str(&u, "tib") {
            Some(1_099_511_627_776)
        } else {
            None
        }
    };
    match m {
        Some(m) => Some((string_of(&w[0]), m)),
        None => None,
    }
}

// ---------------------------------------------------------------------------
// Memory modules
// ---------------------------------------------------------------------------
/// Whether a module size says the slot is empty.
pub open spec fn is_empty_slot(size: Seq<char>) -> bool {
    lower_seq(size) == "no module installed"@
}

pub fn empty_slot(size: &str) -> (r: bool)
    ensures
        r == is_empty_slot(size@),
{
    let l = to_lower(&chars_of(size));
    chars_eq_str(&l, "no module installed")
}

/// How an installed memory module is named and identified.
#[derive(Debug, Clone, PartialEq, Eq)]
pub struct MemoryModuleIdentity {
    pub id: String,
    pub name: String,
    pub vendor: Option<String>,
    pub model: Option<String>,
    pub slot_label: Option<String>,
    pub locator: Option<String>,
    pub bank_locator: Option<String>,
}

/// The name of a module: vendor and part number when both are known, else
/// its slot, else its position (counted from 1).
pub open spec fn module_name(vendor: Option<Seq<char>>, part: Option<Seq<char>>, slot: Option<Seq<char>>, index: nat) -> Seq<char> {
    match (vendor, part, slot) {
        (Some(v), Some(p), _) => v + " "@ + p,
        (_, _, Some(s)) => "Memory module "@ + s,
        _ => "Memory module "@ + decimal(index + 1),
    }
}

/// The id of a module: the id of its slot when the slot has one, else
/// `memory:dmi:<index>`.
pub open spec fn module_id(slot: Option<Seq<char>>, index: nat) -> Seq<char> {
    match slot {
        Some(s) => match slot_id(s) {
            Some(id) => id,
            None => "memory:dmi:"@ + decimal(index),
        },
        None => "memory:dmi:"@ + decimal(index),
    }
}

/// Names and identifies the module of a firmware memory-device record.
pub fn memory_module_identity(fields: &DmiFields, index: usize) -> (r: MemoryModuleIdentity)
    requires
        index < usize::MAX,
    ensures
        opt_view(r.locator) == useful_field(fields@, "locator"@),
        opt_view(r.bank_locator) == useful_field(fields@, "bank_locator"@),
        opt_view(r.slot_label) == slot_label(useful_field(fields@, "locator"@), useful_field(fields@, "bank_locator"@)),
        opt_view(r.vendor) == useful_field(fields@, "manufacturer"@),
        opt_view(r.model) == useful_field(fields@, "part_number"@),
        r.name@ == module_name(opt_view(r.vendor), opt_view(r.model), opt_view(r.slot_label), index as nat),
        r.id@ == module_id(opt_view(r.slot_label), index as nat),
{
    let locator = valid_field(fields, "locator");
    let bank = valid_field(fields, "bank_locator");
    let slot = memory_slot_label(as_str_opt(&locator), as_str_opt(&bank));
    let vendor = valid_field(fields, "manufacturer");
    let model = valid_field(fields, "part_number");
    proof {
        reveal_strlit(" ");
        reveal_strlit("Memory module ");
        reveal_strlit("memory:dmi:");
    }
    let name = match (&vendor, &model, &slot) {
        (Some(v), Some(p), _) => {
            let mut c = chars_of(v.as_str());
            append_str(&mut c, " ");
            append_str(&mut c, p.as_str());
            string_of(&c)
        },
        (_, _, Some(s)) => {
            let mut c = chars_of("Memory module ");
            append_str(&mut c, s.as_str());
            string_of(&c)
        },
        _ => {
            let mut c = chars_of("Memory module ");
            append_str(&mut c, crate::text::decimal_string(index as u128 + 1).as_str());
            string_of(&c)
        },
    };
    let fallback = {
        let mut c = chars_of("memory:dmi:");
        append_str(&mut c, crate::text::decimal_string(index as u128).as_str());
        string_of(&c)
    };
    let id = match &slot {
        Some(s) => match crate::collect::memory::slot_device_id(s.as_str()) {
            Some(i) => i,
            None => fallback,
        },
        None => fallback,
    };
    MemoryModuleIdentity { id, name, vendor, model, slot_label: slot, locator, bank_locator: bank }
}

fn as_str_opt(o: &Option<String>) -> (r: Option<&str>)
    ensures
        opt_str(r) == opt_view(*o),
{
    match o {
        Some(s) => Some(s.as_str()),
        None => None,
    }
}

/// Appends `(property, value)` when the field has a useful value.
pub open spec fn with_field(acc: Seq<(Seq<char>, Seq<char>)>, fields: Seq<(Seq<char>, Seq<char>)>, property: Seq<char>, field: Seq<char>) -> Seq<(Seq<char>, Seq<char>)> {
    match useful_field(fields, field) {
        Some(v) => acc.push((property, v)),
        None => acc,
    }
}

/// The descriptive properties of a memory module, in this order, for the
/// fields that have useful values; the serial number only when sensitive
/// values are included.
pub open spec fn module_properties(fields: Seq<(Seq<char>, Seq<char>)>, include_sensitive: bool) -> Seq<(Seq<char>, Seq<char>)> {
    let a = with_field(seq![], fields, "form_factor"@, "form_factor"@);
    let a = with_field(a, fields, "memory_type"@, "type"@);
    let a = with_field(a, fields, "module_type"@, "type_detail"@);
    let a = with_field(a, fields, "spd_speed"@, "speed"@);
    let a = with_field(a, fields, "configured_memory_speed"@, "configured_memory_speed"@);
    let a = with_field(a, fields, "rank"@, "rank"@);
    let a = with_field(a, fields, "data_width"@, "data_width"@);
    let a = with_field(a, fields, "total_width"@, "total_width"@);
    let a = with_field(a, fields, "minimum_voltage"@, "minimum_voltage"@);
    let a = with_field(a, fields, "maximum_voltage"@, "maximum_voltage"@);
    let a = with_field(a, fields, "configured_voltage"@, "configured_voltage"@);
    let a = with_field(a, fields, "memory_technology"@, "memory_technology"@);
    let a = with_field(a, fields, "memory_operating_mode"@, "memory_operating_mode_capability"@);
    if include_sensitive {
        with_field(a, fields, "serial"@, "serial_number"@)
    } else {
        a
    }
}

fn push_field(out: &mut Vec<(String, String)>, fields: &DmiFields, property: &str, field: &str)
    ensures
        pair_views(final(out)@) == with_field(pair_views(old(out)@), fields@, property@, field@),
{
    match valid_field(fields, field) {
        Some(v) => {
            let ghost before = pair_views(out@);
            out.push((property.to_string(), v));
            assert(pair_views(out@) =~= before.push((property@, useful_field(fields@, field@)->0)));
        },
        None => {},
    }
}

pub fn memory_module_properties(fields: &DmiFields, include_sensitive: bool) -> (r: Vec<(String, String)>)
    ensures
        pair_views(r@) == module_properties(fields@, include_sensitive),
{
    let mut out: Vec<(String, String)> = Vec::new();
    assert(pair_views(out@) =~= Seq::<(Seq<char>, Seq<char>)>::empty());
    push_field(&mut out, fields, "form_factor", "form_factor");
    push_field(&mut out, fields, "memory_type", "type");
    push_field(&mut out, fields, "module_type", "type_detail");
    push_field(&mut out, fields, "spd_speed", "speed");
    push_field(&mut out, fields, "configured_memory_speed", "configured_memory_speed");
    push_field(&mut out, fields, "rank", "rank");
    push_field(&mut out, fields, "data_width", "data_width");
    push_field(&mut out, fields, "total_width", "total_width");
    push_field(&mut out, fields, "minimum_voltage", "minimum_voltage");
    push_field(&mut out, fields, "maximum_voltage", "maximum_voltage");
    push_field(&mut out, fields, "configured_voltage", "configured_voltage");
    push_field(&mut out, fields, "memory_technology", "memory_technology");
    push_field(&mut out, fields, "memory_operating_mode", "memory_operating_mode_capability");
    if include_sensitive {
        push_field(&mut out, fields, "serial", "serial_number");
    }
    out
}

} // verus!
