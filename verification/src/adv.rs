//! Parsing of raw HCI LE Extended Advertising Report packets and of the
//! manufacturer-specific advertising data that carries a LIMA frame, plus the
//! HCI commands that start extended scanning.

use vstd::prelude::*;
use vstd::string::*;

use crate::text::{push_sep_hex, sep_hex};

verus! {

/// HCI packet type of events.
pub const HCI_EVENT_PKT: u8 = 4;
/// HCI packet type of commands.
pub const HCI_COMMAND_PKT: u8 = 1;
/// LE Meta event code.
pub const HCI_EVENT_CODE_LE_META: u8 = 0x3E;
/// LE Extended Advertising Report subevent code.
pub const LE_EXT_ADV_REPORT_SUBEVENT: u8 = 0x0D;
/// Opcode of LE Set Extended Scan Parameters.
pub const HCI_LE_SET_EXT_SCAN_PARAMS: u16 = 0x2041;
/// Opcode of LE Set Extended Scan Enable.
pub const HCI_LE_SET_EXT_SCAN_ENABLE: u16 = 0x2042;
/// Length of the fixed header of one extended advertising report.
pub const REPORT_HDR: usize = 24;
/// Node whose reports the gateway accepts.
pub const NODE_MAC: &'static str = "dev_E3_79_63_12_EF_B1";

/// Scan of advertising-data structures from index `i`: the first
/// manufacturer-specific (type `0xFF`) structure with at least a company id
/// gives `(company id, payload start, payload end)`. A zero length byte ends
/// the data; a structure running past the end makes it malformed.
pub open spec fn ad_scan(d: Seq<u8>, i: int) -> Option<(u16, int, int)>
    decreases d.len() - i,
{
    if i < 0 || i >= d.len() {
        None
    } else {
        let length = d[i] as int;
        if length == 0 {
            None
        } else if i + 1 + length > d.len() {
            None
        } else if d[i + 1] == 0xFF && length - 1 >= 2 {
            Some(((d[i + 2] + d[i + 3] * 256) as u16, i + 4, i + 1 + length))
        } else {
            ad_scan(d, i + 1 + length)
        }
    }
}

proof fn lemma_ad_scan_bounds(d: Seq<u8>, i: int)
    ensures
        ad_scan(d, i) matches Some((m, s, e)) ==> 0 <= s <= e <= d.len(),
    decreases d.len() - i,
{
    if 0 <= i < d.len() {
        let length = d[i] as int;
        if length != 0 && i + 1 + length <= d.len() && !(d[i + 1] == 0xFF && length - 1 >= 2) {
            lemma_ad_scan_bounds(d, i + 1 + length);
        }
    }
}

/// Finds the first manufacturer-specific advertising structure and returns
/// its company id (little-endian) and the bytes after it.
pub fn parse_ad_manufacturer(ad_data: &[u8]) -> (r: Option<(u16, &[u8])>)
    ensures
        match ad_scan(ad_data@, 0) {
            None => r is None,
            Some((m, s, e)) => r matches Some((mfr, payload)) && mfr == m && payload@
                == ad_data@.subrange(s, e),
        },
{
    let len = ad_data.len();
    let mut i: usize = 0;
    while i < len
        invariant
            0 <= i <= len,
            len == ad_data@.len(),
            ad_scan(ad_data@, 0) == ad_scan(ad_data@, i as int),
        decreases len - i,
    {
        let length = ad_data[i] as usize;
        if length == 0 {
            return None;
        }
        if length > len - i - 1 {
            return None;
        }
        let ad_type = ad_data[i + 1];
        if ad_type == 0xFF && length - 1 >= 2 {
            let mfr_id: u16 = ad_data[i + 2] as u16 + (ad_data[i + 3] as u16) * 256;
            let payload = &ad_data[i + 4..i + 1 + length];
            return Some((mfr_id, payload));
        }
        i = i + 1 + length;
    }
    None
}

/// Signed RSSI from its raw byte; `0x7F` means "not available" and gives 0.
pub open spec fn rssi_of(raw: u8) -> i8 {
    if raw == 0x7F {
        0
    } else if raw < 128 {
        raw as i8
    } else {
        (raw - 256) as i8
    }
}

/// Device name of an address given least significant byte first, as in
/// `dev_E3_79_63_12_EF_B1` for the wire bytes `B1 EF 12 63 79 E3`.
pub open spec fn mac_of(addr: Seq<u8>) -> Seq<char> {
    "dev_"@ + sep_hex(addr.reverse(), '_', true)
}

/// Walk over `remaining` reports starting at `offset`: the first report from
/// `node_mac` decides. It matches when its manufacturer data has protocol
/// version 2 in the low byte of the company id; otherwise the walk stops with
/// nothing. A truncated report also stops it.
pub open spec fn ext_reports(pkt: Seq<u8>, node_mac: Seq<char>, remaining: nat, offset: int) -> Option<
    (Seq<char>, i8, u16, int, int),
>
    decreases remaining,
{
    if remaining == 0 {
        None
    } else if pkt.len() < offset + REPORT_HDR {
        None
    } else {
        let dl = pkt[offset + 23] as int;
        let start = offset + REPORT_HDR;
        if pkt.len() < start + dl {
            None
        } else {
            let mac = mac_of(pkt.subrange(offset + 17, offset + 23));
            if mac != node_mac {
                ext_reports(pkt, node_mac, (remaining - 1) as nat, start + dl)
            } else {
                match ad_scan(pkt.subrange(start, start + dl), 0) {
                    Some((m, s, e)) => if m % 256 == 2 {
                        Some((mac, rssi_of(pkt[offset + 6]), m, start + s, start + e))
                    } else {
                        None
                    },
                    None => None,
                }
            }
        }
    }
}

/// What `parse_ext_adv_report` finds in a packet: the packet must be an HCI
/// LE Meta event carrying an Extended Advertising Report.
pub open spec fn ext_adv_report(pkt: Seq<u8>, node_mac: Seq<char>) -> Option<
    (Seq<char>, i8, u16, int, int),
> {
    if pkt.len() < 5 || pkt[0] != HCI_EVENT_PKT || pkt[1] != HCI_EVENT_CODE_LE_META || pkt[3]
        != LE_EXT_ADV_REPORT_SUBEVENT {
        None
    } else {
        ext_reports(pkt, node_mac, pkt[4] as nat, 5)
    }
}

fn device_name(addr: &[u8]) -> (r: String)
    requires
        addr@.len() == 6,
    ensures
        r@ == mac_of(addr@),
{
    let mut rev = [0u8; 6];
    let mut j: usize = 0;
    while j < 6
        invariant
            0 <= j <= 6,
            addr@.len() == 6,
            forall|k: int| 0 <= k < j ==> rev@[k] == addr@[5 - k],
        decreases 6 - j,
    {
        rev[j] = addr[5 - j];
        j = j + 1;
    }
    assert(rev@ =~= addr@.reverse());
    let mut s = String::from_str("dev_");
    let rb: &[u8] = &rev;
    push_sep_hex(&mut s, rb, '_', true);
    s
}

/// Parses a raw HCI packet for an LE Extended Advertising Report from
/// `node_mac` with LIMA manufacturer data, returning its device name, RSSI,
/// company id and payload.
///
/// Each report is a 24-byte header (event type 0..2, PHYs, SID, TX power,
/// RSSI at 6, periodic interval, direct address, address type at 16, address
/// at 17..23 least significant byte first, data length at 23) followed by its
/// advertising data.
pub fn parse_ext_adv_report<'a>(pkt: &'a [u8], node_mac: &str) -> (r: Option<
    (String, i8, u16, &'a [u8]),
>)
    ensures
        match ext_adv_report(pkt@, node_mac@) {
            None => r is None,
            Some((mac, rssi, m, s, e)) => r matches Some((name, rs, mfr, payload)) && name@ == mac
                && rs == rssi && mfr == m && payload@ == pkt@.subrange(s, e),
        },
        r matches Some((name, _, mfr, _)) ==> name@ == node_mac@ && mfr % 256 == 2,
{
    if pkt.len() < 5 {
        return None;
    }
    if pkt[0] != HCI_EVENT_PKT || pkt[1] != HCI_EVENT_CODE_LE_META || pkt[3]
        != LE_EXT_ADV_REPORT_SUBEVENT {
        return None;
    }
    let target = String::from_str(node_mac);
    let num_reports = pkt[4] as usize;
    let len = pkt.len();
    let mut offset: usize = 5;
    let mut k: usize = 0;
    while k < num_reports
        invariant
            0 <= k <= num_reports,
            5 <= offset <= len,
            len == pkt@.len(),
            target@ == node_mac@,
            ext_adv_report(pkt@, node_mac@) == ext_reports(
                pkt@,
                node_mac@,
                (num_reports - k) as nat,
                offset as int,
            ),
        decreases num_reports - k,
    {
        if len - offset < REPORT_HDR {
            return None;
        }
        let raw_rssi = pkt[offset + 6];
        let rssi: i8 = if raw_rssi == 0x7F {
            0
        } else if raw_rssi < 128 {
            raw_rssi as i8
        } else {
            (raw_rssi as i16 - 256) as i8
        };
        let data_length = pkt[offset + 23] as usize;
        if len - offset - REPORT_HDR < data_length {
            return None;
        }
        let start = offset + REPORT_HDR;
        let mac = device_name(&pkt[offset + 17..offset + 23]);
        let ad = &pkt[start..start + data_length];
        if mac != target {
            offset = start + data_length;
            k = k + 1;
        } else {
            match parse_ad_manufacturer(ad) {
                Some((mfr_id, payload)) => {
                    proof {
                        let (m, s, e) = ad_scan(ad@, 0)->0;
                        lemma_ad_scan_bounds(ad@, 0);
                        assert(payload@ =~= pkt@.subrange(start + s, start + e));
                    }
                    if mfr_id % 256 == 2 {
                        return Some((mac, rssi, mfr_id, payload));
                    } else {
                        return None;
                    }
                },
                None => {
                    return None;
                },
            }
        }
    }
    None
}

/// Bytes of the LE Set Extended Scan Parameters command: public own address,
/// accept-all filter, 1M PHY only, passive scan, 30 ms interval and window.
pub open spec fn ext_scan_params_bytes() -> Seq<u8> {
    seq![HCI_COMMAND_PKT, 0x41, 0x20, 8, 0, 0, 1, 0, 0x30, 0, 0x30, 0]
}

/// Bytes of the LE Set Extended Scan Enable command: enabled, duplicates not
/// filtered, continuous.
pub open spec fn ext_scan_enable_bytes() -> Seq<u8> {
    seq![HCI_COMMAND_PKT, 0x42, 0x20, 6, 1, 0, 0, 0, 0, 0]
}

/// The LE Set Extended Scan Parameters command packet.
pub fn ext_scan_params_cmd() -> (r: [u8; 12])
    ensures
        r@ == ext_scan_params_bytes(),
{
    let r: [u8; 12] = [
        HCI_COMMAND_PKT,
        (HCI_LE_SET_EXT_SCAN_PARAMS % 256) as u8,
        (HCI_LE_SET_EXT_SCAN_PARAMS / 256) as u8,
        8,
        0x00,
        0x00,
        0x01,
        0x00,
        0x30,
        0x00,
        0x30,
        0x00,
    ];
    assert(r@ =~= ext_scan_params_bytes());
    r
}

/// The LE Set Extended Scan Enable command packet.
pub fn ext_scan_enable_cmd() -> (r: [u8; 10])
    ensures
        r@ == ext_scan_enable_bytes(),
{
    let r: [u8; 10] = [
        HCI_COMMAND_PKT,
        (HCI_LE_SET_EXT_SCAN_ENABLE % 256) as u8,
        (HCI_LE_SET_EXT_SCAN_ENABLE / 256) as u8,
        6,
        0x01,
        0x00,
        0x00,
        0x00,
        0x00,
        0x00,
    ];
    assert(r@ =~= ext_scan_enable_bytes());
    r
}

} // verus!
