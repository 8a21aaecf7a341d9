use qfetch::color::ColorError;
use qfetch::config::{
    build_settings, module_name, ColorsConfig, Config, ConfigError, Gauge, LogoConfig,
    ModuleConfig, Settings, Thresholds, MODULE_COUNT,
};
use qfetch::fetch::{info_rows, ModuleValues};
use qfetch::logo::PaddingConfig;

fn module(id: &str, enabled: bool, key: &str) -> ModuleConfig {
    ModuleConfig { id: id.to_string(), enabled, key: key.to_string() }
}

fn all_modules() -> Vec<ModuleConfig> {
    vec![
        module("title", true, ""),
        module("os", true, "OS"),
        module("host", true, "Host"),
        module("kernel", true, "Kernel"),
        module("uptime", true, "Uptime"),
        module("shell", false, "Shell"),
        module("de", true, "DE"),
        module("theme", true, "Theme"),
        module("cursor", true, "Cursor"),
        module("cpu", true, "CPU"),
        module("gpu", true, "GPU"),
        module("ram", true, "Memory"),
        module("swap", true, "Swap"),
        module("mounts", true, "Disk"),
        module("locale", true, ""),
        module("standard_palette", true, ""),
        module("bright_palette", false, ""),
    ]
}

fn colors() -> ColorsConfig {
    ColorsConfig {
        title: "a31".to_string(),
        title_sep: "a32".to_string(),
        keys: "a33".to_string(),
        separator: "a34".to_string(),
        values: "a35".to_string(),
        mountpoints: "a36".to_string(),
        low: "a37".to_string(),
        medium: "a90".to_string(),
        high: "a91".to_string(),
    }
}

fn config(modules: Vec<ModuleConfig>) -> Config {
    Config {
        modules,
        title_separator_char: "-".to_string(),
        ram: Thresholds { medium: 50, high: 80 },
        swap: Thresholds { medium: 50, high: 80 },
        mounts: Thresholds { medium: 50, high: 80 },
        colors: colors(),
        logo_enabled: true,
        padding: PaddingConfig { left: 0, right: 1, fill: " ".to_string(), replace_spaces_with_char: false },
        logos: vec![
            LogoConfig { id: "arch".to_string(), colors: vec!["a34".to_string()] },
            LogoConfig { id: "debian".to_string(), colors: vec![] },
        ],
    }
}

fn texts() -> Vec<String> {
    vec!["$1A".to_string(), "D".to_string()]
}

fn built(modules: Vec<ModuleConfig>) -> Settings {
    match build_settings(&config(modules), &texts()) {
        Ok(s) => s,
        Err(e) => panic!("refused: {:?}", e),
    }
}

fn key(k: &str) -> String {
    format!("\x1b[33m{}\x1b[34m:\x1b[0m ", k)
}

#[test]
fn module_names_are_the_seventeen_ids() {
    assert_eq!(MODULE_COUNT, 17);
    assert_eq!(module_name(0), "title");
    assert_eq!(module_name(13), "mounts");
    assert_eq!(module_name(16), "bright_palette");
}

#[test]
fn settings_colors_and_keys() {
    let s = built(all_modules());
    assert_eq!(s.palette.keys, "\x1b[33m");
    assert_eq!(s.palette.values, "\x1b[35m");
    assert_eq!(s.palette.high, "\x1b[91m");
    assert_eq!(s.mounts_key, "Disk");
    assert_eq!(s.ram, Thresholds { medium: 50, high: 80 });
    assert_eq!(s.modules.len(), 17);
    assert_eq!(s.modules[5], ("shell".to_string(), false));
}

#[test]
fn rows_follow_the_configuration() {
    let s = built(all_modules());
    let ids: Vec<&str> = s.rows.iter().map(|r| r.2.as_str()).collect();
    assert_eq!(
        ids,
        vec![
            "title", "sep", "os", "host", "kernel", "uptime", "shell", "de", "theme", "cursor",
            "cpu", "gpu", "ram", "swap", "mounts", "locale", "palette_sep", "standard_palette",
            "bright_palette"
        ]
    );
    assert_eq!(s.rows[0], (0, "".to_string(), "title".to_string()));
    assert_eq!(s.rows[2], (2, key("OS"), "os".to_string()));
    assert_eq!(s.rows[14], (14, "".to_string(), "mounts".to_string()));
    assert_eq!(s.rows[16], (253, "".to_string(), "palette_sep".to_string()));
    assert_eq!(s.rows[17], (254, "".to_string(), "standard_palette".to_string()));
}

#[test]
fn rows_reordered_title_and_palettes_keep_their_places() {
    let mut ms = all_modules();
    ms.reverse();
    let s = built(ms);
    let ids: Vec<&str> = s.rows.iter().map(|r| r.2.as_str()).collect();
    assert_eq!(
        ids,
        vec![
            "title", "sep", "locale", "mounts", "swap", "ram", "gpu", "cpu", "cursor", "theme",
            "de", "shell", "uptime", "kernel", "host", "os", "palette_sep", "standard_palette",
            "bright_palette"
        ]
    );
}

#[test]
fn rows_equal_positions_are_ordered_by_key() {
    let mut ms = all_modules();
    ms.swap(0, 1);
    ms[1].key = "Z".to_string();
    let s = built(ms);
    assert_eq!(s.rows[0], (0, key("Z"), "title".to_string()));
    assert_eq!(s.rows[1], (1, key("OS"), "os".to_string()));
    assert_eq!(s.rows[2], (1, key("Z"), "sep".to_string()));
}

#[test]
fn logos_are_colored_and_padded() {
    let s = built(all_modules());
    assert_eq!(s.logos[0], ("arch".to_string(), "\x1b[34mA\x1b[0m \n".to_string()));
    assert_eq!(s.logos[1], ("debian".to_string(), "D\x1b[0m \n".to_string()));
    assert_eq!(s.get_logo("debian", "arch"), "D\x1b[0m \n");
    assert_eq!(s.get_logo("ubuntu", "debian"), "D\x1b[0m \n");
    assert_eq!(s.get_logo("ubuntu", "mint"), "\x1b[34mA\x1b[0m \n");
    assert_eq!(s.logo_for(None, None), "\x1b[34mA\x1b[0m \n");
    assert_eq!(s.logo_for(Some("debian".to_string()), None), "D\x1b[0m \n");
}

#[test]
fn logo_disabled_gives_no_logo() {
    let mut c = config(all_modules());
    c.logo_enabled = false;
    let s = build_settings(&c, &texts()).ok().unwrap();
    assert_eq!(s.logo_for(Some("arch".to_string()), None), "");
}

#[test]
fn enabled_flags() {
    let s = built(all_modules());
    assert!(s.enabled("os"));
    assert!(!s.enabled("shell"));
    assert!(!s.enabled("nonsense"));
}

#[test]
fn refused_configurations() {
    let mut c = config(all_modules());
    c.colors.keys = "red".to_string();
    c.colors.values = "a38".to_string();
    assert_eq!(build_settings(&c, &texts()).err(), Some(ConfigError::Color(ColorError::InvalidColor)));

    let mut c = config(all_modules());
    c.colors.values = "a38".to_string();
    c.modules[3].id = "kernal".to_string();
    assert_eq!(build_settings(&c, &texts()).err(), Some(ConfigError::UnknownModule(3)));

    let mut c = config(all_modules());
    c.colors.values = "a38".to_string();
    assert_eq!(build_settings(&c, &texts()).err(), Some(ConfigError::Color(ColorError::InvalidAnsi)));

    let mut c = config(all_modules());
    c.colors.high = "#12345600".to_string();
    assert_eq!(build_settings(&c, &texts()).err(), Some(ConfigError::Color(ColorError::Transparency)));
}

#[test]
fn refused_thresholds() {
    let mut c = config(all_modules());
    c.swap = Thresholds { medium: 101, high: 50 };
    assert_eq!(build_settings(&c, &texts()).err(), Some(ConfigError::MediumAbove100(Gauge::Swap)));
    let mut c = config(all_modules());
    c.ram = Thresholds { medium: 10, high: 120 };
    assert_eq!(build_settings(&c, &texts()).err(), Some(ConfigError::HighAbove100(Gauge::Ram)));
    let mut c = config(all_modules());
    c.mounts = Thresholds { medium: 90, high: 80 };
    assert_eq!(build_settings(&c, &texts()).err(), Some(ConfigError::MediumAboveHigh(Gauge::Mounts)));
}

#[test]
fn refused_logos_and_module_lists() {
    let mut c = config(all_modules());
    c.logos[0].colors = vec!["blue".to_string()];
    assert_eq!(
        build_settings(&c, &texts()).err(),
        Some(ConfigError::LogoColor(0, ColorError::InvalidColor))
    );

    let mut ms = all_modules();
    ms.push(module("os", true, ""));
    assert_eq!(build_settings(&config(ms), &texts()).err(), Some(ConfigError::DuplicateModule(17)));

    let mut ms = all_modules();
    ms.remove(4);
    assert_eq!(build_settings(&config(ms), &texts()).err(), Some(ConfigError::MissingModule(4)));

    let mut c = config(all_modules());
    c.logos = vec![];
    assert_eq!(build_settings(&c, &vec![]).err(), Some(ConfigError::NoLogo));
}

fn values() -> ModuleValues {
    let s = |x: &str| Some(x.to_string());
    ModuleValues {
        title: s("t"),
        sep: s("-"),
        os: s("Arch"),
        host: s("box"),
        kernel: s("Linux"),
        uptime: s("1 min"),
        shell: s("bash"),
        de: s("KDE"),
        theme: None,
        cursor: None,
        cpu: s("cpu"),
        gpu: None,
        ram: s("r"),
        swap: s("w"),
        mounts: s("m\n"),
        locale: s("C"),
    }
}

#[test]
fn info_rows_show_enabled_modules() {
    let s = built(all_modules());
    let rows = info_rows(&s, &values());
    assert_eq!(rows.len(), 19);
    assert_eq!(rows[2], (key("OS"), Some("Arch".to_string())));
    assert_eq!(rows[6], (key("Shell"), None));
    assert_eq!(rows[5], (key("Uptime"), Some("1 min".to_string())));
    assert_eq!(rows[16], ("".to_string(), Some("\n".to_string())));
    assert_eq!(
        rows[17].1,
        Some("\x1b[40m   \x1b[41m   \x1b[42m   \x1b[43m   \x1b[44m   \x1b[45m   \x1b[46m   \x1b[47m   \x1b[0m".to_string())
    );
    assert_eq!(rows[18].1, None);
}

#[test]
fn uptime_needs_memory_or_swap() {
    let mut ms = all_modules();
    ms[11].enabled = false;
    ms[12].enabled = false;
    let s = built(ms);
    let rows = info_rows(&s, &values());
    assert_eq!(rows[5], (key("Uptime"), None));
    assert_eq!(rows[12].1, None);
}

#[test]
fn keys_and_logos_are_read_as_string_literals() {
    let mut c = config(all_modules());
    c.modules[1].key = "O\\x53".to_string();
    c.modules[13].key = "D\\u{69}sk".to_string();
    let t = vec!["$1A\\\\".to_string(), "D\\u{2026}".to_string()];
    let s = build_settings(&c, &t).ok().unwrap();
    assert_eq!(s.rows[2], (2, key("OS"), "os".to_string()));
    assert_eq!(s.mounts_key, "Disk");
    assert_eq!(s.logos[0].1, "\x1b[34mA\\\x1b[0m \n");
    assert_eq!(s.logos[1].1, "D\u{2026}\x1b[0m \n");

    let t = vec!["$1A".to_string(), "D\\\nx".to_string()];
    assert_eq!(build_settings(&c, &t).err(), Some(ConfigError::InvalidLogo(1)));
}

#[test]
fn refused_literals() {
    let mut c = config(all_modules());
    c.modules[2].key = "bad\\q".to_string();
    c.title_separator_char = "\"".to_string();
    assert_eq!(build_settings(&c, &texts()).err(), Some(ConfigError::InvalidKey(2)));

    let mut c = config(all_modules());
    c.modules[13].key = "D\"".to_string();
    assert_eq!(build_settings(&c, &texts()).err(), Some(ConfigError::InvalidKey(13)));

    let mut c = config(all_modules());
    c.title_separator_char = "\"".to_string();
    c.logos[1].id = "de\\bian".to_string();
    assert_eq!(build_settings(&c, &texts()).err(), Some(ConfigError::InvalidTitleSeparator));

    let mut c = config(all_modules());
    c.logos[1].id = "de\\bian".to_string();
    let t = vec!["$1A".to_string(), "say \"D\"".to_string()];
    assert_eq!(build_settings(&c, &t).err(), Some(ConfigError::InvalidLogo(1)));
    assert_eq!(build_settings(&c, &texts()).err(), Some(ConfigError::InvalidLogoId(1)));

    let mut ms = all_modules();
    ms[2].key = "bad\\q".to_string();
    ms.push(module("os", true, ""));
    assert_eq!(build_settings(&config(ms), &texts()).err(), Some(ConfigError::DuplicateModule(17)));
}

#[test]
fn logo_ids_must_name_constants() {
    let mut c = config(all_modules());
    c.logos[1].id = "pop-os".to_string();
    assert_eq!(build_settings(&c, &texts()).err(), Some(ConfigError::LogoName(1)));

    let mut c = config(all_modules());
    c.logos[0].id = "1x".to_string();
    assert_eq!(build_settings(&c, &texts()).err(), Some(ConfigError::LogoName(0)));

    let mut c = config(all_modules());
    c.logos[1].id = "Arch".to_string();
    assert_eq!(build_settings(&c, &texts()).err(), Some(ConfigError::DuplicateLogo(1)));

    let mut c = config(all_modules());
    c.logos[1].id = "\u{e9}lan_os".to_string();
    let s = build_settings(&c, &texts()).ok().unwrap();
    assert_eq!(s.logos[1].0, "\u{e9}lan_os");
}
