use stego_transfer::naming::{
    create_encoded_filename, detect_format, encoded_filename_for, sanitize_server_addr,
    try_create_encoded_filename, ArtifactFormat,
};

const PNG_HEAD: [u8; 8] = [137, 80, 78, 71, 13, 10, 26, 10];

#[test]
fn colons_become_underscores() {
    assert_eq!(sanitize_server_addr("127.0.0.1:8080"), "127.0.0.1_8080");
    assert_eq!(sanitize_server_addr("[::1]:9000"), "[__1]_9000");
    assert_eq!(sanitize_server_addr("localhost"), "localhost");
    assert_eq!(sanitize_server_addr(""), "");
    assert_eq!(sanitize_server_addr("h\u{f6}st:1"), "h\u{f6}st_1");
}

#[test]
fn format_follows_the_first_bytes() {
    assert_eq!(detect_format(&PNG_HEAD), ArtifactFormat::Png);
    let mut png = PNG_HEAD.to_vec();
    png.extend_from_slice(&[0, 0, 0, 13]);
    assert_eq!(detect_format(&png), ArtifactFormat::Png);
    assert_eq!(detect_format(&[255, 216, 255]), ArtifactFormat::Jpeg);
    assert_eq!(detect_format(&[255, 216, 255, 224, 0, 16]), ArtifactFormat::Jpeg);
    assert_eq!(detect_format(&[]), ArtifactFormat::Unknown);
    assert_eq!(detect_format(&[137, 80, 78, 71, 13, 10, 26]), ArtifactFormat::Unknown);
    assert_eq!(detect_format(&[137, 80, 78, 71, 13, 10, 26, 11]), ArtifactFormat::Unknown);
    assert_eq!(detect_format(&[255, 216]), ArtifactFormat::Unknown);
    assert_eq!(detect_format(b"GIF89a"), ArtifactFormat::Unknown);
}

#[test]
fn extension_goes_with_the_format() {
    assert_eq!(ArtifactFormat::Png.extension(), "png");
    assert_eq!(ArtifactFormat::Jpeg.extension(), "jpg");
    assert_eq!(ArtifactFormat::Unknown.extension(), "bin");
}

#[test]
fn encoded_filename_has_name_marker_server_and_extension() {
    assert_eq!(
        create_encoded_filename("cat.png", "127.0.0.1:8080", ArtifactFormat::Png),
        "cat.png_encoded_127.0.0.1_8080.png"
    );
    assert_eq!(
        create_encoded_filename("dog.jpeg", "example.org:9", ArtifactFormat::Jpeg),
        "dog.jpeg_encoded_example.org_9.jpg"
    );
    assert_eq!(
        create_encoded_filename("x", "h:1", ArtifactFormat::Unknown),
        "x_encoded_h_1.bin"
    );
}

#[test]
fn only_the_last_component_of_the_path_goes_into_the_name() {
    assert_eq!(
        create_encoded_filename("images/sub/cat.png", "h:1", ArtifactFormat::Png),
        "cat.png_encoded_h_1.png"
    );
    assert_eq!(
        create_encoded_filename("images/sub/cat.png", "h:1", ArtifactFormat::Png),
        create_encoded_filename("cat.png", "h:1", ArtifactFormat::Png)
    );
    assert_eq!(
        create_encoded_filename("./images/dog.jpg", "10.0.0.1:80", ArtifactFormat::Jpeg),
        "dog.jpg_encoded_10.0.0.1_80.jpg"
    );
    assert_eq!(
        create_encoded_filename("/abs/dir/x.png/", "h:1", ArtifactFormat::Unknown),
        "x.png_encoded_h_1.bin"
    );
}

#[test]
fn path_without_a_last_component_has_no_encoded_name() {
    for path in ["..", "images/..", "/", ""] {
        assert_eq!(try_create_encoded_filename(path, "h:1", ArtifactFormat::Png), None);
    }
    assert_eq!(
        try_create_encoded_filename("images/cat.png", "h:1", ArtifactFormat::Png),
        Some("cat.png_encoded_h_1.png".to_string())
    );
}

#[test]
fn name_given_as_such_is_taken_whole() {
    assert_eq!(
        encoded_filename_for("cat.png", "127.0.0.1:8080", ArtifactFormat::Png),
        "cat.png_encoded_127.0.0.1_8080.png"
    );
    assert_eq!(encoded_filename_for("", "", ArtifactFormat::Unknown), "_encoded_.bin");
}

#[test]
fn same_file_on_different_servers_does_not_collide() {
    let servers = ["10.0.0.1:8080", "10.0.0.1:8081", "10.0.0.2:8080", "host:8080"];
    for (i, a) in servers.iter().enumerate() {
        for (j, b) in servers.iter().enumerate() {
            if i != j {
                assert_ne!(
                    create_encoded_filename("cat.png", a, ArtifactFormat::Png),
                    create_encoded_filename("cat.png", b, ArtifactFormat::Png)
                );
            }
        }
    }
}

#[test]
fn different_files_do_not_collide_whatever_the_server() {
    let files = ["cat.png", "cat.jpg", "dog.png", "cat.png.png"];
    let servers = ["10.0.0.1:8080", "10.0.0.2:8080"];
    let formats = [ArtifactFormat::Png, ArtifactFormat::Jpeg, ArtifactFormat::Unknown];
    for (i, fa) in files.iter().enumerate() {
        for (j, fb) in files.iter().enumerate() {
            if i == j {
                continue;
            }
            for sa in servers {
                for sb in servers {
                    for ka in formats {
                        for kb in formats {
                            assert_ne!(
                                create_encoded_filename(fa, sa, ka),
                                create_encoded_filename(fb, sb, kb)
                            );
                        }
                    }
                }
            }
        }
    }
}

#[test]
fn names_that_hold_the_marker_can_collide() {
    // the one way two sessions can meet: a file name that holds "_encoded"
    // and a server address that holds "encoded_" once sanitized
    assert_eq!(
        create_encoded_filename("a", "encoded:x", ArtifactFormat::Png),
        create_encoded_filename("a_encoded", "x", ArtifactFormat::Png)
    );
    // and servers that differ only in ':' against '_'
    assert_eq!(
        create_encoded_filename("a", "h:1", ArtifactFormat::Png),
        create_encoded_filename("a", "h_1", ArtifactFormat::Png)
    );
}
