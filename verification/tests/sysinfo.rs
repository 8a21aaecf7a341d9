use qfetch::config::{Palette, Thresholds};
use qfetch::sysinfo::{
    cpu, cursor, de, distro, host, kernel, locale, mount_points, mounts, shell, sysinfo, title,
    uptime, usage_line, FsStats, MemStats, MountInfo,
};

fn palette() -> Palette {
    Palette {
        title: "T".to_string(),
        title_sep: "S".to_string(),
        keys: "K".to_string(),
        separator: "P".to_string(),
        values: "V".to_string(),
        mountpoints: "M".to_string(),
        low: "<L>".to_string(),
        medium: "<M>".to_string(),
        high: "<H>".to_string(),
    }
}

fn s(x: &str) -> Option<String> {
    Some(x.to_string())
}

#[test]
fn title_and_dashes() {
    let (t, d) = title(s("alice"), s("box"), "\x1b[31m");
    assert_eq!(t, s("\x1b[31malice@box"));
    assert_eq!(d, s("\x1b[0m---------"));
}

#[test]
fn title_dashes_count_bytes() {
    let (_, d) = title(s("é"), s("b"), "");
    assert_eq!(d, s("\x1b[0m----"));
}

#[test]
fn title_needs_user_and_host() {
    assert_eq!(title(None, s("box"), "c"), (None, None));
    assert_eq!(title(s("alice"), None, "c"), (None, None));
    assert_eq!(title(s(""), s("box"), "c"), (None, None));
    assert_eq!(title(s("alice"), s(""), "c"), (None, None));
}

#[test]
fn distro_reads_the_three_fields() {
    let text = "NAME=\"Arch\"\nPRETTY_NAME=\"Arch Linux\"\nID=arch\nID_LIKE=\"\"\"x\"\"\n";
    assert_eq!(distro(text), (s("Arch Linux"), s("arch"), s("x")));
}

#[test]
fn distro_later_lines_override_until_complete() {
    let text = "ID=a\nID=b\nPRETTY_NAME=P\nID_LIKE=l\nID=c\n";
    assert_eq!(distro(text), (s("P"), s("b"), s("l")));
    let partial = "ID=a\nID=b\r\nVERSION=1";
    assert_eq!(distro(partial), (None, s("b"), None));
    assert_eq!(distro(""), (None, None, None));
}

#[test]
fn kernel_joins_name_and_release() {
    assert_eq!(kernel(s("Linux"), s("6.1.0")), s("Linux 6.1.0"));
    assert_eq!(kernel(None, s("6.1.0")), None);
    assert_eq!(kernel(s("Linux"), None), None);
}

#[test]
fn host_is_trimmed() {
    assert_eq!(host(s("  ThinkPad X1\n")), s("ThinkPad X1"));
    assert_eq!(host(s("\u{3000}box\u{a0}")), s("box"));
    assert_eq!(host(None), None);
}

#[test]
fn shell_is_the_file_name() {
    assert_eq!(shell(s("/bin/bash")), s("bash"));
    assert_eq!(shell(s("/usr/local/bin/fish/")), s("fish"));
    assert_eq!(shell(s("/bin/./zsh/.")), s("zsh"));
    assert_eq!(shell(s("zsh")), s("zsh"));
    assert_eq!(shell(s("/")), None);
    assert_eq!(shell(s("")), None);
    assert_eq!(shell(s(".")), None);
    assert_eq!(shell(s("/bin/..")), None);
    assert_eq!(shell(None), None);
}

#[test]
fn desktop_is_the_last_entry() {
    assert_eq!(de(s("ubuntu:GNOME"), s("x")), s("GNOME"));
    assert_eq!(de(s("KDE"), None), s("KDE"));
    assert_eq!(de(s("a:"), None), s(""));
    assert_eq!(de(None, s("sway")), s("sway"));
    assert_eq!(de(None, None), None);
}

#[test]
fn cursor_prefers_x_then_hyprland() {
    assert_eq!(cursor(s("Adwaita"), s("24"), s("h"), s("1")), s("Adwaita (24px)"));
    assert_eq!(cursor(s("Adwaita"), None, s("h"), s("1")), s("Adwaita"));
    assert_eq!(cursor(None, s("24"), s("Bibata"), s("32")), s("Bibata (32px)"));
    assert_eq!(cursor(None, None, s("Bibata"), None), s("Bibata"));
    assert_eq!(cursor(None, s("24"), None, s("32")), None);
}

#[test]
fn cpu_model_name() {
    let info = "processor\t: 0\nmodel name\t: AMD Ryzen 7 5800X 8-Core Processor\nmodel name\t: other\n";
    assert_eq!(cpu(info), s("AMD Ryzen 7 5800X 8-Core Processor"));
    assert_eq!(cpu("model name without colon\nmodel name: x\n"), None);
    assert_eq!(cpu("processor: 0\n"), None);
}

#[test]
fn locale_prefers_lc_all() {
    assert_eq!(locale(s("C"), s("en_US.UTF-8")), s("C"));
    assert_eq!(locale(None, s("en_US.UTF-8")), s("en_US.UTF-8"));
    assert_eq!(locale(None, None), None);
}

#[test]
fn uptime_examples() {
    assert_eq!(uptime(0), "0 mins");
    assert_eq!(uptime(59), "0 mins");
    assert_eq!(uptime(60), "1 min");
    assert_eq!(uptime(3599), "59 mins");
    assert_eq!(uptime(3600), "1 hour");
    assert_eq!(uptime(3661), "1 hour, 1 min");
    assert_eq!(uptime(7322), "2 hours, 2 mins");
    assert_eq!(uptime(86400 + 120), "1 day, 2 mins");
    assert_eq!(uptime(90061), "1 day, 1 hour, 1 min");
    assert_eq!(uptime(172800), "2 days");
}

#[test]
fn sysinfo_lines() {
    let p = palette();
    let t = Thresholds { medium: 50, high: 80 };
    let stats = MemStats {
        uptime_secs: 3661,
        ram_total: 2048,
        ram_unused: 1024,
        swap_total: 4096,
        swap_free: 512,
    };
    let (u, r, w) = sysinfo(Some(stats), &p, t, t);
    assert_eq!(u, s("1 hour, 1 min"));
    assert_eq!(r, s("1 KiB / 2 KiB (<M>50%V)"));
    assert_eq!(w, s("3.50 KiB / 4 KiB (<H>87%V)"));
    assert_eq!(sysinfo(None, &p, t, t), (None, None, None));
}

#[test]
fn sysinfo_low_level_color() {
    let p = palette();
    let t = Thresholds { medium: 50, high: 80 };
    let stats = MemStats { uptime_secs: 0, ram_total: 1000, ram_unused: 900, swap_total: 10, swap_free: 10 };
    let (_, r, w) = sysinfo(Some(stats), &p, t, t);
    assert_eq!(r, s("100 B / 1000 B (<L>10%V)"));
    assert_eq!(w, s("0 B / 10 B (<L>0%V)"));
}

const MOUNTS: &str = "sysfs /sys sysfs rw 0 0
/dev/nvme0n1p2 / ext4 rw,relatime 0 0
/dev/nvme0n1p1 /boot vfat rw 0 0
/dev/nvme0n1p1 /efi vfat rw 0 0
/dev/sda1 /data btrfs rw 0 0
/dev/sda1 /data2 btrfs rw 0 0
/dev/sdb1 /var/lib/containers/storage/overlay xfs rw 0 0
tmpfs /tmp tmpfs rw 0 0
/dev/sdc1 /mnt/x ntfs rw 0 0
";

#[test]
fn mount_points_are_filtered() {
    let m = mount_points(MOUNTS);
    assert_eq!(
        m,
        vec![
            ("ext4".to_string(), "/".to_string()),
            ("btrfs".to_string(), "/data".to_string()),
            ("ntfs".to_string(), "/mnt/x".to_string()),
        ]
    );
}

#[test]
fn mount_points_of_short_lines() {
    assert_eq!(mount_points(""), vec![]);
    assert_eq!(mount_points("/dev/sda1\n/dev/sda1 /x\n"), vec![]);
}

#[test]
fn mounts_lines() {
    let p = palette();
    let t = Thresholds { medium: 50, high: 90 };
    let ms = vec![
        MountInfo {
            fs: "ext4".to_string(),
            mount_point: "/".to_string(),
            stats: Some(FsStats { fragment_size: 1024, blocks: 4, blocks_free: 1 }),
        },
        MountInfo { fs: "vfat".to_string(), mount_point: "/efi".to_string(), stats: None },
    ];
    assert_eq!(
        mounts(&ms, &p, "Disk", t),
        s("KDisk (M/K)P:V 3 KiB / 4 KiB (<M>75%V) - ext4\n")
    );
    let none = vec![MountInfo { fs: "vfat".to_string(), mount_point: "/efi".to_string(), stats: None }];
    assert_eq!(mounts(&none, &p, "Disk", t), None);
    assert_eq!(mounts(&vec![], &p, "Disk", t), None);
}

#[test]
fn usage_line_from_texts() {
    let p = palette();
    let t = Thresholds { medium: 50, high: 80 };
    assert_eq!(usage_line("1 KiB", "2 KiB", 50, t, &p), "1 KiB / 2 KiB (<M>50%V)");
    assert_eq!(usage_line("a", "b", 80, t, &p), "a / b (<H>80%V)");
    assert_eq!(usage_line("a", "b", 49, t, &p), "a / b (<L>49%V)");
}

#[test]
fn sysinfo_wraps_when_unused_exceeds_total() {
    let p = palette();
    let t = Thresholds { medium: 50, high: 80 };
    let stats = MemStats { uptime_secs: 0, ram_total: 1, ram_unused: 2, swap_total: 1, swap_free: 1 };
    let (_, r, _) = sysinfo(Some(stats), &p, t, t);
    assert_eq!(r, s("16 EiB / 1 B (<H>18446744073709551516%V)"));
}

#[test]
fn distro_fields_each_on_one_line() {
    let (p, i, l) = distro("ID_LIKE=\"arch\"\nNAME=x\nPRETTY_NAME=\"Endeavour OS\"\nID=endeavouros\n");
    assert_eq!((p, i, l), (s("Endeavour OS"), s("endeavouros"), s("arch")));
    assert_eq!(distro("ID=\"void\"\n"), (None, s("void"), None));
}

#[test]
fn mounts_of_a_whole_file() {
    let file = "/dev/sda1 / ext4 rw 0 0\nproc /proc proc rw 0 0\n/dev/sda2 /home btrfs rw 0 0\n/dev/sda1 /again ext4 rw 0 0\n/dev/sdb1 /gone xfs rw 0 0\n";
    let listed = mount_points(file);
    assert_eq!(listed.len(), 3);
    let stats = FsStats { fragment_size: 1, blocks: 100, blocks_free: 50 };
    let ms: Vec<MountInfo> = listed
        .into_iter()
        .map(|(fs, mount_point)| {
            let st = if mount_point == "/gone" { None } else { Some(stats) };
            MountInfo { fs, mount_point, stats: st }
        })
        .collect();
    let p = palette();
    let out = mounts(&ms, &p, "Disk", Thresholds { medium: 60, high: 90 }).unwrap();
    let lines: Vec<&str> = out.lines().collect();
    assert_eq!(lines.len(), 2);
    assert!(lines[0].contains("M/K") && lines[0].ends_with(" - ext4"));
    assert!(lines[1].contains("M/homeK") && lines[1].ends_with(" - btrfs"));
}
