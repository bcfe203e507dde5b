//! Parsers for `bluetoothctl devices Connected` and `bluetoothctl info`.
use crate::text::{char_is_hex_digit, chars_eq_str, chars_of, first_word, first_word_chars, is_hex_digit, lines, lines_of, opt_view, owned, parse_i16, parse_signed, parse_unsigned, parse_unsigned_chars, rsplit_once, rsplit_once_chars, slice_chars, slug, slug_chars, split, split_chars, split_first_ws, split_first_ws_chars, string_of, strip_prefix, strip_prefix_str, trim, trim_chars, trim_end_char, trim_end_char_chars, unicode_lower_chars, unicode_lower_seq, views};
use vstd::prelude::*;

verus! {

/// One entry of `bluetoothctl devices Connected`.
#[derive(Debug, PartialEq, Eq)]
pub struct ListedDevice {
    pub address: String,
    pub name: String,
}

/// Whether `v` is six colon-separated pairs of hexadecimal digits.
pub open spec fn bluetooth_address(v: Seq<char>) -> bool {
    let parts = split(v, ':');
    parts.len() == 6 && forall|i: int|
        0 <= i < 6 ==> {
            &&& parts[i].len() == 2
            &&& is_hex_digit(parts[i][0])
            &&& is_hex_digit(parts[i][1])
        }
}

/// The address and display name of a `Device <address> <name>` line.
pub open spec fn connected_device(line: Seq<char>) -> Option<(Seq<char>, Seq<char>)> {
    match strip_prefix(trim(line), "Device "@) {
        None => None,
        Some(rest) => {
            let parts = split_first_ws(rest);
            let address = trim(parts.0);
            if !bluetooth_address(address) {
                None
            } else {
                let name = match parts.1 {
                    Some(x) => trim(x),
                    None => Seq::empty(),
                };
                Some((address, if name.len() == 0 { "Bluetooth device"@ } else { name }))
            }
        },
    }
}

pub fn is_bluetooth_address(value: &str) -> (r: bool)
    ensures
        r == bluetooth_address(value@),
{
    let v = chars_of(value);
    let parts = split_chars(&v, ':');
    proof {
        assert(views(parts@).len() == parts@.len());
    }
    if parts.len() != 6 {
        return false;
    }
    let mut i: usize = 0;
    while i < 6
        invariant
            parts@.len() == 6,
            v@ == value@,
            views(parts@) == split(v@, ':'),
            i <= 6,
            forall|j: int|
                0 <= j < i ==> {
                    &&& parts@[j]@.len() == 2
                    &&& is_hex_digit(parts@[j]@[0])
                    &&& is_hex_digit(parts@[j]@[1])
                },
        decreases 6 - i,
    {
        let part = &parts[i];
        if part.len() != 2 || !char_is_hex_digit(part[0]) || !char_is_hex_digit(part[1]) {
            proof {
                assert(views(parts@)[i as int] == part@);
            }
            return false;
        }
        i += 1;
    }
    proof {
        let sp = split(v@, ':');
        assert forall|j: int| 0 <= j < 6 implies sp[j].len() == 2 && is_hex_digit(sp[j][0])
            && is_hex_digit(sp[j][1]) by {
            assert(views(parts@)[j] == parts@[j]@);
        }
    }
    true
}

pub fn parse_connected_device(line: &str) -> (r: Option<ListedDevice>)
    ensures
        r matches Some(d) ==> connected_device(line@) == Some((d.address@, d.name@)),
        r is None ==> connected_device(line@) is None,
{
    let l = chars_of(line);
    let t = trim_chars(&l);
    let rest = match strip_prefix_str(&t, "Device ") {
        Some(rest) => rest,
        None => return None,
    };
    let (first, second) = split_first_ws_chars(&rest);
    let address = trim_chars(&first);
    let address_str = string_of(&address);
    if !is_bluetooth_address(address_str.as_str()) {
        return None;
    }
    let name = match second {
        Some(x) => trim_chars(&x),
        None => Vec::new(),
    };
    let name_str = if name.len() == 0 {
        owned("Bluetooth device")
    } else {
        string_of(&name)
    };
    Some(ListedDevice { address: address_str, name: name_str })
}

/// Properties of `bluetoothctl info` output.
#[derive(Debug, Default, PartialEq, Eq)]
pub struct BluetoothInfo {
    pub alias: Option<String>,
    pub icon: Option<String>,
    pub modalias: Option<String>,
    pub battery_percent: Option<u8>,
    pub rssi: Option<i16>,
}

pub type InfoView = (Option<Seq<char>>, Option<Seq<char>>, Option<Seq<char>>, Option<u8>, Option<i16>);

pub open spec fn info_view(i: BluetoothInfo) -> InfoView {
    (opt_view(i.alias), opt_view(i.icon), opt_view(i.modalias), i.battery_percent, i.rssi)
}

/// A trimmed value, or nothing when it is empty.
pub open spec fn non_empty_spec(v: Seq<char>) -> Option<Seq<char>> {
    if trim(v).len() == 0 {
        None
    } else {
        Some(trim(v))
    }
}

/// The battery percentage of a `Battery Percentage:` value.
pub open spec fn battery_percentage(value: Seq<char>) -> Option<u8> {
    let bracketed = match rsplit_once(value, '(') {
        Some(p) => match parse_unsigned(trim_end_char(trim_end_char(p.1, ')'), '%'), 10, 255) {
            Some(n) => if n <= 100 {
                Some(n as u8)
            } else {
                None
            },
            None => None,
        },
        None => None,
    };
    if bracketed is Some {
        bracketed
    } else {
        let v = trim(value);
        let percent = if v.len() >= 2 && v.take(2) == "0x"@ {
            match first_word(v.skip(2)) {
                Some(w) => parse_unsigned(w, 16, 255),
                None => None,
            }
        } else {
            match first_word(trim_end_char(v, '%')) {
                Some(w) => parse_unsigned(w, 10, 255),
                None => None,
            }
        };
        match percent {
            Some(n) => if n <= 100 {
                Some(n as u8)
            } else {
                None
            },
            None => None,
        }
    }
}

/// The signal strength of an `RSSI:` value.
pub open spec fn rssi_value(value: Seq<char>) -> Option<i16> {
    let bracketed = match rsplit_once(value, '(') {
        Some(p) => parse_signed(trim(trim_end_char(p.1, ')')), -32768, 32767),
        None => None,
    };
    match bracketed {
        Some(v) => Some(v as i16),
        None => match first_word(value) {
            Some(w) => match parse_signed(w, -32768, 32767) {
                Some(v) => Some(v as i16),
                None => None,
            },
            None => None,
        },
    }
}

/// The USB vendor of a `usb:vXXXX...` modalias.
pub open spec fn modalias_vendor(value: Seq<char>) -> Option<u16> {
    match strip_prefix(trim(value), "usb:v"@) {
        Some(rest) => if rest.len() >= 4 {
            match parse_unsigned(rest.take(4), 16, 65535) {
                Some(v) => Some(v as u16),
                None => None,
            }
        } else {
            None
        },
        None => None,
    }
}

/// How one trimmed line of `bluetoothctl info` updates the properties.
pub open spec fn info_step(info: InfoView, line: Seq<char>) -> InfoView {
    if strip_prefix(line, "Alias:"@) is Some {
        (non_empty_spec(strip_prefix(line, "Alias:"@).unwrap()), info.1, info.2, info.3, info.4)
    } else if strip_prefix(line, "Icon:"@) is Some {
        (info.0, non_empty_spec(strip_prefix(line, "Icon:"@).unwrap()), info.2, info.3, info.4)
    } else if strip_prefix(line, "Modalias:"@) is Some {
        (info.0, info.1, non_empty_spec(strip_prefix(line, "Modalias:"@).unwrap()), info.3, info.4)
    } else if strip_prefix(line, "Battery Percentage:"@) is Some {
        (
            info.0,
            info.1,
            info.2,
            battery_percentage(strip_prefix(line, "Battery Percentage:"@).unwrap()),
            info.4,
        )
    } else if strip_prefix(line, "RSSI:"@) is Some {
        (info.0, info.1, info.2, info.3, rssi_value(strip_prefix(line, "RSSI:"@).unwrap()))
    } else {
        info
    }
}

/// The properties of a whole `bluetoothctl info` output.
pub open spec fn info_fold(lines: Seq<Seq<char>>) -> InfoView
    decreases lines.len(),
{
    if lines.len() == 0 {
        (None, None, None, None, None)
    } else {
        info_step(info_fold(lines.drop_last()), trim(lines.last()))
    }
}

pub fn non_empty(value: &str) -> (r: Option<String>)
    ensures
        opt_view(r) == non_empty_spec(value@),
{
    let v = chars_of(value);
    non_empty_chars(&v)
}

fn non_empty_chars(v: &[char]) -> (r: Option<String>)
    ensures
        opt_view(r) == non_empty_spec(v@),
{
    let t = trim_chars(v);
    if t.len() == 0 {
        None
    } else {
        Some(string_of(&t))
    }
}

fn parse_u8_percent(w: &[char], radix: u32) -> (r: Option<u8>)
    requires
        radix == 10 || radix == 16,
    ensures
        r == (match parse_unsigned(w@, radix as nat, 255) {
            Some(n) => if n <= 100 {
                Some(n as u8)
            } else {
                None
            },
            None => None,
        }),
{
    match parse_unsigned_chars(w, radix, 255) {
        Some(n) => if n <= 100 {
            Some(n as u8)
        } else {
            None
        },
        None => None,
    }
}

pub fn parse_battery_percentage(value: &str) -> (r: Option<u8>)
    ensures
        r == battery_percentage(value@),
{
    let v = chars_of(value);
    if let Some((_, raw)) = rsplit_once_chars(&v, '(') {
        let a = trim_end_char_chars(&raw, ')');
        let b = trim_end_char_chars(&a, '%');
        let p = parse_u8_percent(&b, 10);
        if p.is_some() {
            return p;
        }
    }
    let t = trim_chars(&v);
    if t.len() >= 2 && t[0] == '0' && t[1] == 'x' {
        proof {
            reveal_strlit("0x");
            assert(t@.take(2) =~= "0x"@);
        }
        let rest = slice_chars(&t, 2, t.len());
        match first_word_chars(&rest) {
            Some(w) => parse_u8_percent(&w, 16),
            None => None,
        }
    } else {
        proof {
            reveal_strlit("0x");
            if t@.len() >= 2 {
                assert(t@.take(2) != "0x"@ || (t@[0] == '0' && t@[1] == 'x')) by {
                    if t@.take(2) == "0x"@ {
                        assert(t@.take(2)[0] == '0');
                        assert(t@.take(2)[1] == 'x');
                    }
                }
            }
        }
        let u = trim_end_char_chars(&t, '%');
        match first_word_chars(&u) {
            Some(w) => parse_u8_percent(&w, 10),
            None => None,
        }
    }
}

pub fn parse_usb_modalias_vendor(value: &str) -> (r: Option<u16>)
    ensures
        r == modalias_vendor(value@),
{
    let v = chars_of(value);
    let t = trim_chars(&v);
    match strip_prefix_str(&t, "usb:v") {
        Some(rest) => {
            if rest.len() >= 4 {
                let head = slice_chars(&rest, 0, 4);
                match parse_unsigned_chars(&head, 16, 65535) {
                    Some(n) => Some(n as u16),
                    None => None,
                }
            } else {
                None
            }
        },
        None => None,
    }
}

pub fn parse_rssi(value: &str) -> (r: Option<i16>)
    ensures
        r == rssi_value(value@),
{
    let v = chars_of(value);
    if let Some((_, decimal)) = rsplit_once_chars(&v, '(') {
        let a = trim_end_char_chars(&decimal, ')');
        let b = trim_chars(&a);
        if let Some(n) = parse_i16(&b) {
            return Some(n);
        }
    }
    match first_word_chars(&v) {
        Some(w) => parse_i16(&w),
        None => None,
    }
}

pub fn parse_device_info(output: &str) -> (r: BluetoothInfo)
    ensures
        info_view(r) == info_fold(lines(output@)),
{
    let o = chars_of(output);
    let all = lines_of(&o);
    let mut info = BluetoothInfo {
        alias: None,
        icon: None,
        modalias: None,
        battery_percent: None,
        rssi: None,
    };
    let mut i: usize = 0;
    while i < all.len()
        invariant
            i <= all@.len(),
            views(all@) == lines(o@),
            o@ == output@,
            info_view(info) == info_fold(views(all@).take(i as int)),
        decreases all.len() - i,
    {
        let line = trim_chars(&all[i]);
        proof {
            assert(views(all@).take(i + 1).drop_last() =~= views(all@).take(i as int));
            assert(views(all@)[i as int] == all@[i as int]@);
        }
        if let Some(value) = strip_prefix_str(&line, "Alias:") {
            info.alias = non_empty_chars(&value);
        } else if let Some(value) = strip_prefix_str(&line, "Icon:") {
            info.icon = non_empty_chars(&value);
        } else if let Some(value) = strip_prefix_str(&line, "Modalias:") {
            info.modalias = non_empty_chars(&value);
        } else if let Some(value) = strip_prefix_str(&line, "Battery Percentage:") {
            let text = string_of(&value);
            info.battery_percent = parse_battery_percentage(text.as_str());
        } else if let Some(value) = strip_prefix_str(&line, "RSSI:") {
            let text = string_of(&value);
            info.rssi = parse_rssi(text.as_str());
        }
        i += 1;
    }
    proof {
        assert(views(all@).take(all@.len() as int) =~= views(all@));
    }
    info
}

/// The device type shown for a `bluetoothctl` icon name.
pub open spec fn device_type_spec(icon: Seq<char>) -> Option<Seq<char>> {
    if icon == "input-mouse"@ {
        Some("Mouse"@)
    } else if icon == "input-keyboard"@ {
        Some("Keyboard"@)
    } else if icon == "input-gaming"@ {
        Some("Game controller"@)
    } else if icon == "audio-headset"@ {
        Some("Headset"@)
    } else if icon == "audio-headphones"@ {
        Some("Headphones"@)
    } else if icon == "audio-speakers"@ {
        Some("Speakers"@)
    } else {
        None
    }
}

pub fn device_type(icon: &str) -> (r: Option<&'static str>)
    ensures
        r matches Some(x) ==> device_type_spec(icon@) == Some(x@),
        r is None ==> device_type_spec(icon@) is None,
{
    let v = chars_of(icon);
    if chars_eq_str(&v, "input-mouse") {
        Some("Mouse")
    } else if chars_eq_str(&v, "input-keyboard") {
        Some("Keyboard")
    } else if chars_eq_str(&v, "input-gaming") {
        Some("Game controller")
    } else if chars_eq_str(&v, "audio-headset") {
        Some("Headset")
    } else if chars_eq_str(&v, "audio-headphones") {
        Some("Headphones")
    } else if chars_eq_str(&v, "audio-speakers") {
        Some("Speakers")
    } else {
        None
    }
}

/// The identifier base of a device name: its slug, or `device`.
pub open spec fn device_id_base_spec(name: Seq<char>) -> Seq<char> {
    let s = slug(unicode_lower_seq(trim(name)));
    if s.len() == 0 {
        "device"@
    } else {
        s
    }
}

pub fn device_id_base(name: &str) -> (r: String)
    ensures
        r@ == device_id_base_spec(name@),
{
    let n = chars_of(name);
    let t = trim_chars(&n);
    let l = unicode_lower_chars(&t);
    let s = slug_chars(&l);
    if s.len() == 0 {
        owned("device")
    } else {
        string_of(&s)
    }
}

} // verus!
