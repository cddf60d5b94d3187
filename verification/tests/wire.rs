//! Framing, versions, digests, streams and file names on the wire.

use lanecho::digest::{digest, le_bytes_of};
use lanecho::filenames::{landing_names, sanitize_file_name, unique_name};
use lanecho::images::{
    bgra_to_rgba, decode_png, decode_png_rgba, downscale_png, encode_png_rgba, expand_frame,
    png_dimensions, Frame, ImageError, PixelFormat,
};
use lanecho::protocol::{
    check_version, encode_frame, major_of, read_header, ControlMessage, FileMeta, PeerInfo,
    ProtocolError, MAX_FRAME_LEN,
};
use lanecho::stream::{batch_dir, ended_early, file_shrank, part_name, BlobStream};
use lanecho::sync::SyncError;
use lanecho::{DEFAULT_DISCOVERY_PORT, DEFAULT_TCP_PORT, PROTOCOL_VERSION};

/// The protocol version must be a two-part major.minor string so the handshake
/// negotiation can parse it
#[test]
fn protocol_version_format() {
    let parts: Vec<&str> = PROTOCOL_VERSION.split('.').collect();
    assert_eq!(parts.len(), 2);
    assert!(parts.iter().all(|p| p.parse::<u32>().is_ok()));
}

/// The control port and the discovery port must not collide
#[test]
fn default_ports_distinct() {
    assert_ne!(DEFAULT_TCP_PORT, DEFAULT_DISCOVERY_PORT);
}

/// A body over the frame limit must be refused while encoding
#[test]
fn encode_frame_rejects_oversized() {
    let data = "x".repeat(MAX_FRAME_LEN as usize + 1);
    assert!(matches!(
        encode_frame(data.as_bytes()),
        Err(ProtocolError::FrameTooLarge(n)) if n == MAX_FRAME_LEN + 1
    ));
}

/// The limit itself still fits
#[test]
fn largest_frame_is_accepted() {
    let body = vec![7u8; MAX_FRAME_LEN as usize];
    let frame = encode_frame(&body).unwrap();
    assert_eq!(frame.len(), body.len() + 4);
    assert_eq!(read_header(&[frame[0], frame[1], frame[2], frame[3]]), Ok(MAX_FRAME_LEN));
}

/// The reading side must refuse an oversized frame before parsing the body
#[test]
fn oversized_frame_rejected() {
    let bogus_len = (MAX_FRAME_LEN + 1).to_be_bytes();
    assert!(matches!(
        read_header(&bogus_len),
        Err(ProtocolError::FrameTooLarge(_))
    ));
}

/// What is framed comes back: the header gives the length, the rest is the body
#[test]
fn framed_bytes_come_back() {
    let raw = "  你好\n\t emoji🚀 \0 尾巴  ";
    let frame = encode_frame(raw.as_bytes()).unwrap();
    assert_eq!(&frame[..4], &(raw.len() as u32).to_be_bytes());
    let len = read_header(&[frame[0], frame[1], frame[2], frame[3]]).unwrap();
    assert_eq!(&frame[4..4 + len as usize], raw.as_bytes());
    assert_eq!(frame.len(), 4 + len as usize);
}

/// The same major is compatible, a different one is refused
#[test]
fn version_compat() {
    assert!(check_version("1.0").is_ok());
    assert!(check_version("1.9").is_ok());
    assert!(matches!(
        check_version("2.0"),
        Err(ProtocolError::VersionMismatch { .. })
    ));
}

#[test]
fn version_majors() {
    assert_eq!(major_of("1.1"), "1");
    assert_eq!(major_of("12"), "12");
    assert_eq!(major_of(".5"), "");
    assert!(check_version("").is_err());
    assert!(check_version("10.0").is_err());
    assert_eq!(
        check_version("2.0"),
        Err(ProtocolError::VersionMismatch {
            peer: "2.0".to_string(),
            local: "1.1".to_string()
        })
    );
}

#[test]
fn message_kinds_are_their_tags() {
    let info = PeerInfo {
        device_id: "d".into(),
        name: "n".into(),
        fingerprint: "f".into(),
        platform: "linux".into(),
        os_version: None,
    };
    let hello = ControlMessage::Hello {
        version: "1.1".into(),
        info: info.clone(),
    };
    let ack = ControlMessage::HelloAck {
        version: "1.1".into(),
        info,
    };
    let sync = ControlMessage::ClipboardSync {
        seq: 0,
        timestamp_ms: 0,
        content_type: "text".into(),
        data: String::new(),
    };
    let kinds: Vec<&str> = vec![
        hello.kind(),
        ack.kind(),
        ControlMessage::PairRequest.kind(),
        ControlMessage::PairResponse { accepted: true }.kind(),
        ControlMessage::Unpair.kind(),
        sync.kind(),
        ControlMessage::BlobAccept.kind(),
        ControlMessage::BlobFooter { hash: "h".into() }.kind(),
        ControlMessage::SyncAck.kind(),
        ControlMessage::SyncRejected {
            reason_code: "disabled".into(),
        }
        .kind(),
        ControlMessage::Bye.kind(),
    ];
    assert_eq!(
        kinds,
        vec![
            "hello",
            "hello_ack",
            "pair_request",
            "pair_response",
            "unpair",
            "clipboard_sync",
            "blob_accept",
            "blob_footer",
            "sync_ack",
            "sync_rejected",
            "bye"
        ]
    );
}

#[test]
fn protocol_errors_read_well() {
    assert_eq!(
        ProtocolError::FrameTooLarge(5).message(),
        "帧长度 5 字节超过上限 1048576"
    );
    assert_eq!(ProtocolError::Io("gone".into()).message(), "IO 错误: gone");
    assert_eq!(
        ProtocolError::Codec("bad".into()).message(),
        "消息编解码失败: bad"
    );
    let mismatch = ProtocolError::VersionMismatch {
        peer: "2.0".into(),
        local: "1.1".into(),
    };
    assert_eq!(mismatch.message(), "协议版本不兼容: 对端 2.0, 本机 1.1");
    let unexpected = ProtocolError::Unexpected {
        expected: "hello_ack".into(),
        got: "bye".into(),
    };
    assert_eq!(unexpected.message(), "意外的消息: 期望 hello_ack, 收到 bye");
}

/// The digest is the hexadecimal BLAKE3 hash
#[test]
fn digest_is_blake3() {
    assert_eq!(
        digest(b""),
        "af1349b9f5f9a1a6a0404dea36dcc9499bcb25c9adc112b7cc9a93cae41f3262"
    );
    assert_eq!(digest(b"abc"), blake3::hash(b"abc").to_hex().to_string());
    assert_eq!(le_bytes_of(0x0102_0304_0506_0708), vec![8, 7, 6, 5, 4, 3, 2, 1]);
}

/// A stream's checksum covers every file of the batch, whatever the chunks
#[test]
fn stream_checksum_covers_the_batch() {
    let mut s = BlobStream::new();
    s.begin(5);
    assert_eq!(s.want(), 5);
    assert!(s.take(b"he"));
    assert_eq!(s.want(), 3);
    assert!(s.take(b"llo"));
    assert_eq!(s.want(), 0);
    s.begin(3);
    assert!(s.take(b"you"));
    assert_eq!(s.finish(), blake3::hash(b"helloyou").to_hex().to_string());

    let mut t = BlobStream::new();
    t.begin(8);
    assert!(t.take(b"helloyou"));
    assert_eq!(t.finish(), s.finish());
}

/// An empty read before the announced end is the end of the stream
#[test]
fn empty_read_ends_a_stream() {
    let mut s = BlobStream::new();
    s.begin(2);
    assert!(!s.take(b""));
    assert_eq!(s.want(), 2);
    assert_eq!(ended_early(), SyncError::Io("unexpected end of file".into()));
    assert_eq!(
        file_shrank("/tmp/a"),
        SyncError::Io("文件在发送途中变小: /tmp/a".into())
    );
}

/// One read asks for at most one buffer
#[test]
fn stream_reads_are_bounded() {
    let mut s = BlobStream::new();
    s.begin(3 * 1024 * 1024);
    assert_eq!(s.want(), 1024 * 1024);
}

#[test]
fn batch_directory_takes_eight_characters() {
    assert_eq!(
        batch_dir("/data", "cafe0001-1111-4222-8333-444455556666"),
        "/data/sync-files/cafe0001"
    );
    assert_eq!(part_name(0), "recv-0.part");
    assert_ne!(part_name(0), part_name(1));
    assert_ne!(part_name(1), part_name(11));
}

/// Every path traversal payload reduces to a safe basename
#[test]
fn sanitize_blocks_traversal() {
    assert_eq!(sanitize_file_name("../../etc/passwd", 0), "passwd");
    assert_eq!(sanitize_file_name("/etc/shadow", 0), "shadow");
    // A backslash is not a path separator, so the whole string is one name, and
    // once the backslashes are replaced it is a harmless one
    assert_eq!(sanitize_file_name("..\\..\\win.ini", 0), ".._.._win.ini");
    assert_eq!(sanitize_file_name("..", 0), "file-0");
    assert_eq!(sanitize_file_name("", 3), "file-3");
    assert_eq!(sanitize_file_name("...", 5), "file-5");
}

/// Illegal Windows characters replaced, trailing dots and spaces stripped,
/// reserved names prefixed
#[test]
fn sanitize_windows_rules() {
    assert_eq!(sanitize_file_name("a<b>c:d.txt", 0), "a_b_c_d.txt");
    assert_eq!(sanitize_file_name("name. ", 0), "name");
    assert_eq!(sanitize_file_name("CON.txt", 0), "_CON.txt");
    assert_eq!(sanitize_file_name("COM1", 0), "_COM1");
    assert_eq!(sanitize_file_name("COMMON.txt", 0), "COMMON.txt");
    assert_eq!(
        sanitize_file_name("正常文件 名.tar.gz", 0),
        "正常文件 名.tar.gz"
    );
}

#[test]
fn sanitize_edges() {
    assert_eq!(sanitize_file_name("a\u{0}b\u{7f}.txt", 0), "a_b_.txt");
    assert_eq!(sanitize_file_name("lpt9.tar.gz", 0), "_lpt9.tar.gz");
    assert_eq!(sanitize_file_name("dir/", 2), "dir");
    assert_eq!(sanitize_file_name("a/.", 2), "a");
}

/// Duplicates within a batch count up; a hidden file is not split into an
/// empty stem
#[test]
fn unique_names_increment() {
    let mut used: Vec<String> = Vec::new();
    assert_eq!(unique_name(&mut used, "a.txt".into()), "a.txt");
    assert_eq!(unique_name(&mut used, "a.txt".into()), "a (1).txt");
    assert_eq!(unique_name(&mut used, "a.txt".into()), "a (2).txt");
    assert_eq!(unique_name(&mut used, ".bashrc".into()), ".bashrc");
    assert_eq!(unique_name(&mut used, ".bashrc".into()), ".bashrc (1)");
}

/// The names of a batch are safe and pairwise different
#[test]
fn landed_names_are_distinct() {
    let metas = vec![
        FileMeta {
            name: "report.txt".into(),
            bytes: 1,
        },
        FileMeta {
            name: "../report.txt".into(),
            bytes: 2,
        },
        FileMeta {
            name: "".into(),
            bytes: 3,
        },
    ];
    assert_eq!(
        landing_names(&metas),
        vec!["report.txt", "report (1).txt", "file-2"]
    );
}

/// PNG encode/decode round trip: RGBA comes back byte-for-byte, which is what
/// the echo hash baseline rests on
#[test]
fn png_roundtrip_preserves_rgba() {
    let (w, h) = (3, 2);
    let rgba: Vec<u8> = (0..w * h * 4).map(|i| (i * 7 % 251) as u8).collect();
    let png = encode_png_rgba(w, h, &rgba).unwrap();
    let (dw, dh, decoded) = decode_png_rgba(&png).unwrap();
    assert_eq!((dw, dh), (w, h));
    assert_eq!(decoded, rgba);
    assert_eq!(png_dimensions(&png), Some((3, 2)));
}

/// Decoding an RGB PNG (no alpha) fills in an opaque alpha: sub-format
/// compatibility across implementations
#[test]
fn png_decode_expands_rgb() {
    let mut out = Vec::new();
    {
        let mut encoder = png::Encoder::new(&mut out, 2, 1);
        encoder.set_color(png::ColorType::Rgb);
        encoder.set_depth(png::BitDepth::Eight);
        let mut writer = encoder.write_header().unwrap();
        writer.write_image_data(&[10, 20, 30, 40, 50, 60]).unwrap();
    }
    let (w, h, rgba) = decode_png_rgba(&out).unwrap();
    assert_eq!((w, h), (2, 1));
    assert_eq!(rgba, vec![10, 20, 30, 255, 40, 50, 60, 255]);
}

#[test]
fn png_decode_expands_gray() {
    let mut out = Vec::new();
    {
        let mut encoder = png::Encoder::new(&mut out, 2, 1);
        encoder.set_color(png::ColorType::Grayscale);
        encoder.set_depth(png::BitDepth::Eight);
        let mut writer = encoder.write_header().unwrap();
        writer.write_image_data(&[9, 200]).unwrap();
    }
    let (_, _, rgba) = decode_png_rgba(&out).unwrap();
    assert_eq!(rgba, vec![9, 9, 9, 255, 200, 200, 200, 255]);

    let pair = Frame {
        width: 1,
        height: 1,
        format: PixelFormat::GrayAlpha,
        data: vec![5, 6],
    };
    assert_eq!(expand_frame(pair), Ok(vec![5, 5, 5, 6]));
    let other = Frame {
        width: 1,
        height: 1,
        format: PixelFormat::Other,
        data: vec![5],
    };
    assert_eq!(expand_frame(other), Err(ImageError::Format));
}

/// A stored picture with fewer samples than RGBA is not scaled
#[test]
fn rgb_png_is_not_scaled() {
    let mut out = Vec::new();
    {
        let mut encoder = png::Encoder::new(&mut out, 2, 1);
        encoder.set_color(png::ColorType::Rgb);
        encoder.set_depth(png::BitDepth::Eight);
        let mut writer = encoder.write_header().unwrap();
        writer.write_image_data(&[10, 20, 30, 40, 50, 60]).unwrap();
    }
    assert_eq!(decode_png(&out).unwrap(), (2, 1, vec![10, 20, 30, 40, 50, 60]));
    assert_eq!(downscale_png(&out, 2, 1, 1, 1), None);
    assert!(matches!(decode_png(b"not a png"), Err(ImageError::Decode)));
}

/// A palette, and a palette with transparency, become colours
#[test]
fn png_decode_expands_palette() {
    let mut out = Vec::new();
    {
        let mut encoder = png::Encoder::new(&mut out, 3, 1);
        encoder.set_color(png::ColorType::Indexed);
        encoder.set_depth(png::BitDepth::Eight);
        encoder.set_palette(vec![1, 2, 3, 40, 50, 60]);
        let mut writer = encoder.write_header().unwrap();
        writer.write_image_data(&[1, 0, 1]).unwrap();
    }
    let (w, h, rgba) = decode_png_rgba(&out).unwrap();
    assert_eq!((w, h), (3, 1));
    assert_eq!(rgba, vec![40, 50, 60, 255, 1, 2, 3, 255, 40, 50, 60, 255]);

    let mut clear = Vec::new();
    {
        let mut encoder = png::Encoder::new(&mut clear, 2, 1);
        encoder.set_color(png::ColorType::Indexed);
        encoder.set_depth(png::BitDepth::Eight);
        encoder.set_palette(vec![1, 2, 3, 40, 50, 60]);
        encoder.set_trns(vec![0, 128]);
        let mut writer = encoder.write_header().unwrap();
        writer.write_image_data(&[0, 1]).unwrap();
    }
    let (_, _, rgba) = decode_png_rgba(&clear).unwrap();
    assert_eq!(rgba, vec![1, 2, 3, 0, 40, 50, 60, 128]);
}

/// Sixteen bits per sample are not supported
#[test]
fn sixteen_bit_png_is_refused() {
    let mut out = Vec::new();
    {
        let mut encoder = png::Encoder::new(&mut out, 1, 1);
        encoder.set_color(png::ColorType::Rgba);
        encoder.set_depth(png::BitDepth::Sixteen);
        let mut writer = encoder.write_header().unwrap();
        writer.write_image_data(&[1, 2, 3, 4, 5, 6, 7, 8]).unwrap();
    }
    assert!(matches!(decode_png_rgba(&out), Err(ImageError::Format)));
    assert_eq!(png_dimensions(&out), Some((1, 1)));
}

#[test]
fn broken_png_is_refused() {
    assert!(matches!(decode_png_rgba(b"not a png"), Err(ImageError::Decode)));
    assert_eq!(png_dimensions(b"not a png"), None);
    // Fewer bytes than the size asks for
    assert!(matches!(encode_png_rgba(3, 2, &[0u8; 4]), Err(ImageError::Encode)));
    // No pixel at all
    assert!(matches!(encode_png_rgba(0, 2, &[]), Err(ImageError::Encode)));
    assert!(matches!(encode_png_rgba(2, 0, &[]), Err(ImageError::Encode)));
}

#[test]
fn downscaled_png_has_the_asked_size() {
    let rgba = vec![128u8; 40 * 20 * 4];
    let png = encode_png_rgba(40, 20, &rgba).unwrap();
    let small = downscale_png(&png, 40, 20, 10, 5).unwrap();
    assert_eq!(png_dimensions(&small), Some((10, 5)));
    assert_eq!(downscale_png(b"junk", 40, 20, 10, 5), None);
    assert_eq!(downscale_png(&png, 40, 20, 0, 5), None);
    assert_eq!(downscale_png(&png, 40, 20, 10, 0), None);
}

/// A picture that has the size already keeps its pixels
#[test]
fn downscaling_to_the_same_size_keeps_the_pixels() {
    let rgba: Vec<u8> = (0..5 * 4 * 4).map(|i| (i * 13 % 251) as u8).collect();
    let png = encode_png_rgba(5, 4, &rgba).unwrap();
    let same = downscale_png(&png, 5, 4, 5, 4).unwrap();
    assert_eq!(decode_png_rgba(&same).unwrap(), (5, 4, rgba.clone()));
    assert_eq!(decode_png(&png).unwrap(), (5, 4, rgba));
    // More pixels than there are
    assert_eq!(downscale_png(&png, 6, 4, 5, 4), None);
}

/// Channel swap: BGRA in, RGBA out, alpha untouched when any pixel carries one
#[test]
fn bgra_swaps_to_rgba_and_keeps_real_alpha() {
    // One blue-ish pixel with alpha 200, one red-ish with alpha 0
    let bgra = vec![250u8, 20, 30, 200, 10, 40, 240, 0];
    let rgba = bgra_to_rgba(bgra);
    assert_eq!(rgba, vec![30, 20, 250, 200, 240, 40, 10, 0]);
}

/// Mask-based icons (alpha all zero) must come out fully opaque, or the preview
/// card would render an invisible image
#[test]
fn zero_alpha_icon_becomes_opaque() {
    let bgra = vec![1u8, 2, 3, 0, 4, 5, 6, 0];
    let rgba = bgra_to_rgba(bgra);
    assert_eq!(rgba, vec![3, 2, 1, 0xff, 6, 5, 4, 0xff]);
}

#[test]
fn swapping_twice_restores_the_pixels() {
    let pixels = vec![250u8, 20, 30, 200, 10, 40, 240, 1];
    assert_eq!(bgra_to_rgba(bgra_to_rgba(pixels.clone())), pixels);
}
