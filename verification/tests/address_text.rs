use torrent_tracker::response::text::{colon_hex_string, dotted_string};

fn segments_of(seed: u64) -> [u16; 8] {
    // Addresses with many zero segments, from the bits of a counter.
    let mut ip = [0u16; 8];
    for i in 0..8 {
        let bits = (seed >> (2 * i)) & 3;
        ip[i] = match bits {
            0 => 0,
            1 => 0,
            2 => 0xffff,
            _ => (seed as u16).wrapping_mul(31).wrapping_add(i as u16),
        };
    }
    ip
}

/// The host of a URL as the `url` crate writes it: an IPv6 address with
/// its longest run of zero segments left out, and never dotted.
fn host(text: &str) -> String {
    let url = url::Url::parse(&format!("http://{}/", text)).expect("the text is a host");
    String::from(url.host_str().expect("the URL has a host"))
}

#[test]
fn ipv6_text_reads_back_as_itself() {
    for seed in 0..65536u64 {
        let ip = segments_of(seed);
        let text = colon_hex_string(&ip);
        if ip[..5] == [0, 0, 0, 0, 0] && ip[5] == 0xffff {
            let dotted = format!(
                "::ffff:{}.{}.{}.{}",
                ip[6] >> 8,
                ip[6] & 0xff,
                ip[7] >> 8,
                ip[7] & 0xff
            );
            assert_eq!(text, dotted);
            continue;
        }
        assert_eq!(host(&format!("[{}]", text)), format!("[{}]", text));
        // And it is the address that was written.
        let full = format!(
            "[{:x}:{:x}:{:x}:{:x}:{:x}:{:x}:{:x}:{:x}]",
            ip[0], ip[1], ip[2], ip[3], ip[4], ip[5], ip[6], ip[7]
        );
        assert_eq!(host(&full), format!("[{}]", text));
    }
}

#[test]
fn ipv4_text_reads_back_as_itself() {
    for a in [0u8, 1, 9, 10, 99, 100, 127, 200, 255] {
        for b in [0u8, 7, 42, 255] {
            let ip = [a, b, b.wrapping_add(a), a.wrapping_mul(3)];
            let text = dotted_string(&ip);
            assert_eq!(text, format!("{}.{}.{}.{}", ip[0], ip[1], ip[2], ip[3]));
            assert_eq!(host(&text), text);
        }
    }
}
