//! The system equalizer a preset reaches: Equalizer APO on Windows,
//! PipeWire (with EasyEffects) on Linux. What the status panel shows of it
//! is decided here from the library and the facts the host reports.
use vstd::prelude::*;

use crate::library::{first_where, lemma_first_where};
use crate::model::{opt_view, copy_opt, PresetGroupView, PresetLibrary, PresetLibraryView};
use crate::text::{extend_str, join, string_of};

verus! {

/// The group and preset that are active: those of the first group with an
/// active preset.
pub open spec fn active_pair(lib: PresetLibraryView) -> Option<(Seq<char>, Seq<char>)> {
    let k = first_where(lib.groups, |g: PresetGroupView| g.active_preset is Some);
    if k < lib.groups.len() {
        Some((lib.groups[k as int].name, lib.groups[k as int].active_preset->0))
    } else {
        None
    }
}

/// The active group's and preset's names, or `None` for both.
pub fn active_selection(snapshot: &PresetLibrary) -> (r: (Option<String>, Option<String>))
    ensures
        match active_pair(snapshot@) {
            Some((g, p)) => opt_view(r.0) == Some(g) && opt_view(r.1) == Some(p),
            None => r.0 is None && r.1 is None,
        },
{
    let ghost gv = snapshot@.groups;
    let ghost p = |g: PresetGroupView| g.active_preset is Some;
    proof {
        lemma_first_where(gv, p);
    }
    let mut i: usize = 0;
    while i < snapshot.groups.len()
        invariant
            i <= snapshot.groups@.len() == gv.len(),
            gv == snapshot@.groups,
            p == (|g: PresetGroupView| g.active_preset is Some),
            first_where(gv, p) <= gv.len(),
            first_where(gv, p) < gv.len() ==> p(gv[first_where(gv, p) as int]),
            forall|q: int| 0 <= q < first_where(gv, p) ==> !p(#[trigger] gv[q]),
            forall|q: int| 0 <= q < i ==> !p(#[trigger] gv[q]),
        decreases snapshot.groups.len() - i,
    {
        assert(gv[i as int] == snapshot.groups@[i as int]@);
        if let Some(active) = &snapshot.groups[i].active_preset {
            assert(first_where(gv, p) == i);
            return (Some(snapshot.groups[i].name.clone()), Some(active.clone()));
        }
        i = i + 1;
    }
    (None, None)
}

/// The platform the library runs on.
#[derive(Debug, Clone, Copy, PartialEq, Eq, Structural)]
pub enum HostPlatform {
    Windows,
    Linux,
    MacOs,
    Other,
}

/// What the host reports about its system equalizer.
#[derive(Debug, Clone)]
pub enum BackendFacts {
    /// Windows: whether the Equalizer APO installation's config folder is
    /// the current one (looked at only when an installation was detected).
    Windows { connected: bool },
    /// Linux: where the exported preset and the PipeWire snippet live, which
    /// of them exist, the detected audio stack (label and detail) and the
    /// command that installs the missing parts.
    Linux {
        active_export_path: String,
        pipewire_config_path: String,
        export_exists: bool,
        pipewire_config_exists: bool,
        detected_label: String,
        detected_detail: String,
        install_command: String,
    },
    /// macOS, which has no supported backend.
    MacOs,
    /// Any other platform.
    Other,
}

/// What the status panel shows of the system equalizer.
#[derive(Debug, Clone)]
pub struct EqBackendStatus {
    pub platform: String,
    pub state: String,
    pub backend_name: String,
    pub status_label: String,
    pub status_detail: String,
    pub active_group_name: Option<String>,
    pub active_preset_name: Option<String>,
    pub config_path: Option<String>,
    pub installed_config_path: Option<String>,
    pub active_export_path: Option<String>,
    pub pipewire_config_path: Option<String>,
    pub setup_action_label: String,
    pub detected_backend_label: Option<String>,
    pub detected_backend_detail: Option<String>,
    pub install_command: Option<String>,
    pub restart_command: Option<String>,
    pub setup_hint: Option<String>,
}

/// The view of a backend status.
pub ghost struct StatusView {
    pub platform: Seq<char>,
    pub state: Seq<char>,
    pub backend_name: Seq<char>,
    pub status_label: Seq<char>,
    pub status_detail: Seq<char>,
    pub active_group_name: Option<Seq<char>>,
    pub active_preset_name: Option<Seq<char>>,
    pub config_path: Option<Seq<char>>,
    pub installed_config_path: Option<Seq<char>>,
    pub active_export_path: Option<Seq<char>>,
    pub pipewire_config_path: Option<Seq<char>>,
    pub setup_action_label: Seq<char>,
    pub detected_backend_label: Option<Seq<char>>,
    pub detected_backend_detail: Option<Seq<char>>,
    pub install_command: Option<Seq<char>>,
    pub restart_command: Option<Seq<char>>,
    pub setup_hint: Option<Seq<char>>,
}

impl View for EqBackendStatus {
    type V = StatusView;

    open spec fn view(&self) -> StatusView {
        StatusView {
            platform: self.platform@,
            state: self.state@,
            backend_name: self.backend_name@,
            status_label: self.status_label@,
            status_detail: self.status_detail@,
            active_group_name: opt_view(self.active_group_name),
            active_preset_name: opt_view(self.active_preset_name),
            config_path: opt_view(self.config_path),
            installed_config_path: opt_view(self.installed_config_path),
            active_export_path: opt_view(self.active_export_path),
            pipewire_config_path: opt_view(self.pipewire_config_path),
            setup_action_label: self.setup_action_label@,
            detected_backend_label: opt_view(self.detected_backend_label),
            detected_backend_detail: opt_view(self.detected_backend_detail),
            install_command: opt_view(self.install_command),
            restart_command: opt_view(self.restart_command),
            setup_hint: opt_view(self.setup_hint),
        }
    }
}

/// The command that restarts the PipeWire user services.
pub open spec fn restart_command_text() -> Seq<char> {
    "systemctl --user try-restart pipewire.service pipewire-pulse.service wireplumber.service"@
}

/// The command that restarts the PipeWire user services.
pub fn linux_restart_command() -> (r: String)
    ensures
        r@ == restart_command_text(),
{
    "systemctl --user try-restart pipewire.service pipewire-pulse.service wireplumber.service".to_owned()
}

/// The command that installs the Linux audio stack with the first package
/// manager found: pacman, then apt (or apt-get), then dnf, then zypper.
pub open spec fn install_command_text(pacman: bool, apt: bool, dnf: bool, zypper: bool) -> Seq<char> {
    if pacman {
        "sudo pacman -S --needed pipewire pipewire-pulse wireplumber easyeffects"@
    } else if apt {
        "sudo apt update && sudo apt install -y pipewire pipewire-pulse wireplumber easyeffects"@
    } else if dnf {
        "sudo dnf install pipewire pipewire-pulseaudio wireplumber easyeffects"@
    } else if zypper {
        "sudo zypper install pipewire pipewire-pulseaudio wireplumber easyeffects"@
    } else {
        "Install PipeWire, WirePlumber, pipewire-pulse and EasyEffects with your distribution package manager"@
    }
}

/// The install command for the package managers found (`apt` stands for apt
/// or apt-get).
pub fn linux_install_command(pacman: bool, apt: bool, dnf: bool, zypper: bool) -> (r: String)
    ensures
        r@ == install_command_text(pacman, apt, dnf, zypper),
{
    if pacman {
        "sudo pacman -S --needed pipewire pipewire-pulse wireplumber easyeffects".to_owned()
    } else if apt {
        "sudo apt update && sudo apt install -y pipewire pipewire-pulse wireplumber easyeffects".to_owned()
    } else if dnf {
        "sudo dnf install pipewire pipewire-pulseaudio wireplumber easyeffects".to_owned()
    } else if zypper {
        "sudo zypper install pipewire pipewire-pulseaudio wireplumber easyeffects".to_owned()
    } else {
        "Install PipeWire, WirePlumber, pipewire-pulse and EasyEffects with your distribution package manager".to_owned()
    }
}

/// The parts of the Linux audio stack that were found, in order.
pub open spec fn installed_parts(pipewire: bool, pulse: bool, wireplumber: bool, easyeffects: bool) -> Seq<
    Seq<char>,
> {
    (if pipewire {
        seq!["PipeWire"@]
    } else {
        Seq::empty()
    }) + (if pulse {
        seq!["pipewire-pulse/Pulse bridge"@]
    } else {
        Seq::empty()
    }) + (if wireplumber {
        seq!["WirePlumber"@]
    } else {
        Seq::empty()
    }) + (if easyeffects {
        seq!["EasyEffects"@]
    } else {
        Seq::empty()
    })
}

/// The parts of the Linux audio stack that are missing (EasyEffects being
/// optional), in order.
pub open spec fn missing_parts(pipewire: bool, pulse: bool, wireplumber: bool, easyeffects: bool) -> Seq<
    Seq<char>,
> {
    (if !pipewire {
        seq!["PipeWire"@]
    } else {
        Seq::empty()
    }) + (if !pulse {
        seq!["pipewire-pulse/Pulse bridge"@]
    } else {
        Seq::empty()
    }) + (if !wireplumber {
        seq!["WirePlumber"@]
    } else {
        Seq::empty()
    }) + (if !easyeffects {
        seq!["EasyEffects optional GUI"@]
    } else {
        Seq::empty()
    })
}

/// A list of parts as the detail shows it: joined with commas, or "none".
pub open spec fn parts_text(parts: Seq<Seq<char>>) -> Seq<char> {
    if parts.len() == 0 {
        "none"@
    } else {
        join(parts, ", "@)
    }
}

/// The label of the detected Linux audio stack.
pub open spec fn detected_label_text(pipewire: bool, wireplumber: bool, easyeffects: bool) -> Seq<char> {
    if pipewire && wireplumber {
        if easyeffects {
            "PipeWire + EasyEffects detected"@
        } else {
            "PipeWire detected"@
        }
    } else {
        "Linux EQ backend incomplete"@
    }
}

/// Appends `name` to one of two lists, depending on `found`.
fn sort_part(installed: &mut Vec<Vec<char>>, missing: &mut Vec<Vec<char>>, found: bool, name: &str, missing_name: &str)
    ensures
        final(installed)@.map_values(|p: Vec<char>| p@) == old(installed)@.map_values(|p: Vec<char>| p@) + (
        if found {
            seq![name@]
        } else {
            Seq::empty()
        }),
        final(missing)@.map_values(|p: Vec<char>| p@) == old(missing)@.map_values(|p: Vec<char>| p@) + (
        if !found {
            seq![missing_name@]
        } else {
            Seq::empty()
        }),
{
    let ghost i0 = installed@.map_values(|p: Vec<char>| p@);
    let ghost m0 = missing@.map_values(|p: Vec<char>| p@);
    if found {
        installed.push(crate::text::chars_of(name));
    } else {
        missing.push(crate::text::chars_of(missing_name));
    }
    assert(installed@.map_values(|p: Vec<char>| p@) =~= i0 + (if found {
        seq![name@]
    } else {
        Seq::empty()
    }));
    assert(missing@.map_values(|p: Vec<char>| p@) =~= m0 + (if !found {
        seq![missing_name@]
    } else {
        Seq::empty()
    }));
}

/// Describes the Linux audio stack from which of its parts were found:
/// PipeWire, the Pulse bridge, WirePlumber and EasyEffects. Gives a label
/// and a detail listing what was found and what is missing.
pub fn linux_detected_backend(pipewire: bool, pulse: bool, wireplumber: bool, easyeffects: bool) -> (r: (
    String,
    String,
))
    ensures
        r.0@ == detected_label_text(pipewire, wireplumber, easyeffects),
        r.1@ == "Detected: "@ + parts_text(installed_parts(pipewire, pulse, wireplumber, easyeffects))
            + ". Missing/optional: "@ + parts_text(missing_parts(pipewire, pulse, wireplumber, easyeffects))
            + "."@,
{
    let mut installed: Vec<Vec<char>> = Vec::new();
    let mut missing: Vec<Vec<char>> = Vec::new();
    sort_part(&mut installed, &mut missing, pipewire, "PipeWire", "PipeWire");
    sort_part(
        &mut installed,
        &mut missing,
        pulse,
        "pipewire-pulse/Pulse bridge",
        "pipewire-pulse/Pulse bridge",
    );
    sort_part(&mut installed, &mut missing, wireplumber, "WirePlumber", "WirePlumber");
    sort_part(&mut installed, &mut missing, easyeffects, "EasyEffects", "EasyEffects optional GUI");
    assert(installed@.map_values(|p: Vec<char>| p@) =~= installed_parts(
        pipewire,
        pulse,
        wireplumber,
        easyeffects,
    ));
    assert(missing@.map_values(|p: Vec<char>| p@) =~= missing_parts(
        pipewire,
        pulse,
        wireplumber,
        easyeffects,
    ));
    let label = if pipewire && wireplumber {
        if easyeffects {
            "PipeWire + EasyEffects detected".to_owned()
        } else {
            "PipeWire detected".to_owned()
        }
    } else {
        "Linux EQ backend incomplete".to_owned()
    };
    let mut v: Vec<char> = Vec::new();
    extend_str(&mut v, "Detected: ");
    if installed.len() == 0 {
        extend_str(&mut v, "none");
    } else {
        let j = crate::text::join_exec(&installed, ", ");
        crate::text::extend_chars(&mut v, &j);
    }
    extend_str(&mut v, ". Missing/optional: ");
    if missing.len() == 0 {
        extend_str(&mut v, "none");
    } else {
        let j = crate::text::join_exec(&missing, ", ");
        crate::text::extend_chars(&mut v, &j);
    }
    extend_str(&mut v, ".");
    (label, string_of(&v))
}

/// The status on Windows: whether a preset is active, whether Equalizer
/// APO reads the current config folder, and whether it is installed.
pub open spec fn windows_status(lib: PresetLibraryView, connected: bool) -> StatusView {
    let active = active_pair(lib);
    let installed = lib.installed_config_path is Some;
    let (state, label, detail) = if active is None {
        (
            "no_active_preset"@,
            "No active preset"@,
            "Choose a preset and press Apply. Equalizer APO can only process the active preset."@,
        )
    } else if installed && connected {
        (
            "connected"@,
            "Equalizer APO connected"@,
            "The Windows Equalizer APO ConfigPath points at the SmartEQPresetSwitcher writable backend config folder."@,
        )
    } else if installed {
        (
            "setup_needed"@,
            "APO setup needed"@,
            "Equalizer APO is installed, but its ConfigPath is not pointing at this app's managed config folder."@,
        )
    } else {
        (
            "setup_needed"@,
            "APO not detected"@,
            "Use the setup panel to install or repair Equalizer APO and open the Device Selector."@,
        )
    };
    StatusView {
        platform: "windows"@,
        state,
        backend_name: "Equalizer APO"@,
        status_label: label,
        status_detail: detail,
        active_group_name: match active {
            Some((g, _)) => Some(g),
            None => None,
        },
        active_preset_name: match active {
            Some((_, p)) => Some(p),
            None => None,
        },
        config_path: Some(lib.config_path),
        installed_config_path: lib.installed_config_path,
        active_export_path: None,
        pipewire_config_path: None,
        setup_action_label: "Open APO setup"@,
        detected_backend_label: match lib.installed_config_path {
            Some(_) => Some("Equalizer APO detected"@),
            None => None,
        },
        detected_backend_detail: match lib.installed_config_path {
            Some(p) => Some("Equalizer APO ConfigPath: "@ + p),
            None => None,
        },
        install_command: None,
        restart_command: None,
        setup_hint: None,
    }
}

/// The status on Linux: whether a preset is active and which of the exported
/// preset and the PipeWire snippet exist.
pub open spec fn linux_status(
    lib: PresetLibraryView,
    export_path: Seq<char>,
    pipewire_path: Seq<char>,
    export_exists: bool,
    pipewire_exists: bool,
    detected_label: Seq<char>,
    detected_detail: Seq<char>,
    install_command: Seq<char>,
) -> StatusView {
    let active = active_pair(lib);
    let (state, label, detail) = if active is None {
        (
            "no_active_preset"@,
            "No active preset"@,
            "Choose a preset and press Apply. Linux exports are generated from the active preset."@,
        )
    } else if export_exists && pipewire_exists {
        (
            "export_ready"@,
            "Linux EQ export ready"@,
            "The active preset is exported and a PipeWire filter-chain config snippet exists. Restart PipeWire or your session if you just created it, then route audio to the generated EQ node."@,
        )
    } else if export_exists {
        (
            "setup_needed"@,
            "Preset exported only"@,
            "The active preset was exported for manual Linux EQ tools, but no PipeWire filter-chain config was generated."@,
        )
    } else {
        (
            "setup_needed"@,
            "System EQ not connected"@,
            "The preset is active inside SmartEQPresetSwitcher, but Linux system-wide EQ export has not been generated yet."@,
        )
    };
    StatusView {
        platform: "linux"@,
        state,
        backend_name: "PipeWire / EasyEffects"@,
        status_label: label,
        status_detail: detail,
        active_group_name: match active {
            Some((g, _)) => Some(g),
            None => None,
        },
        active_preset_name: match active {
            Some((_, p)) => Some(p),
            None => None,
        },
        config_path: Some(lib.config_path),
        installed_config_path: None,
        active_export_path: Some(export_path),
        pipewire_config_path: Some(pipewire_path),
        setup_action_label: if pipewire_exists {
            "Restart PipeWire EQ"@
        } else {
            "Setup Linux EQ export"@
        },
        detected_backend_label: Some(detected_label),
        detected_backend_detail: Some(detected_detail),
        install_command: Some(install_command),
        restart_command: Some(restart_command_text()),
        setup_hint: Some(
            if pipewire_exists {
                "PipeWire setup exists. Restart services or route audio to the SmartEQPresetSwitcher EQ node if you do not hear the EQ yet."@
            } else if export_exists {
                "PipeWire setup was not generated. Try re-applying the preset; GraphicEQ presets are now converted to a parametric approximation automatically."@
            } else {
                "Apply a preset, then run setup. For system-wide PipeWire auto-setup, prefer AutoEQ parametric presets with Filter lines."@
            },
        ),
    }
}

/// The status on a platform without a supported backend.
pub open spec fn unsupported_status(lib: PresetLibraryView, macos: bool) -> StatusView {
    let active = active_pair(lib);
    StatusView {
        platform: if macos {
            "macos"@
        } else {
            "unknown"@
        },
        state: "unsupported"@,
        backend_name: "Unsupported"@,
        status_label: "System EQ unsupported"@,
        status_detail: if macos {
            "macOS system-wide EQ setup is not implemented in this project."@
        } else {
            "This platform does not have a supported SmartEQPresetSwitcher backend."@
        },
        active_group_name: match active {
            Some((g, _)) => Some(g),
            None => None,
        },
        active_preset_name: match active {
            Some((_, p)) => Some(p),
            None => None,
        },
        config_path: Some(lib.config_path),
        installed_config_path: lib.installed_config_path,
        active_export_path: None,
        pipewire_config_path: None,
        setup_action_label: "View details"@,
        detected_backend_label: None,
        detected_backend_detail: None,
        install_command: None,
        restart_command: None,
        setup_hint: None,
    }
}

/// The status for a library and what the host reports.
pub open spec fn backend_status(lib: PresetLibraryView, facts: BackendFacts) -> StatusView {
    match facts {
        BackendFacts::Windows { connected } => windows_status(lib, connected),
        BackendFacts::Linux {
            active_export_path,
            pipewire_config_path,
            export_exists,
            pipewire_config_exists,
            detected_label,
            detected_detail,
            install_command,
        } => linux_status(
            lib,
            active_export_path@,
            pipewire_config_path@,
            export_exists,
            pipewire_config_exists,
            detected_label@,
            detected_detail@,
            install_command@,
        ),
        BackendFacts::MacOs => unsupported_status(lib, true),
        BackendFacts::Other => unsupported_status(lib, false),
    }
}

/// Builds what the status panel shows of the system equalizer.
pub fn build_eq_backend_status(snapshot: PresetLibrary, facts: BackendFacts) -> (r: EqBackendStatus)
    ensures
        r@ == backend_status(snapshot@, facts),
{
    let (active_group_name, active_preset_name) = active_selection(&snapshot);
    let has_active = active_preset_name.is_some();
    let ghost lib = snapshot@;
    match facts {
        BackendFacts::Windows { connected } => {
            let installed = snapshot.installed_config_path.is_some();
            let (state, label, detail) = if !has_active {
                (
                    "no_active_preset",
                    "No active preset",
                    "Choose a preset and press Apply. Equalizer APO can only process the active preset.",
                )
            } else if installed && connected {
                (
                    "connected",
                    "Equalizer APO connected",
                    "The Windows Equalizer APO ConfigPath points at the SmartEQPresetSwitcher writable backend config folder.",
                )
            } else if installed {
                (
                    "setup_needed",
                    "APO setup needed",
                    "Equalizer APO is installed, but its ConfigPath is not pointing at this app's managed config folder.",
                )
            } else {
                (
                    "setup_needed",
                    "APO not detected",
                    "Use the setup panel to install or repair Equalizer APO and open the Device Selector.",
                )
            };
            let detected_backend_label = match &snapshot.installed_config_path {
                Some(_) => Some("Equalizer APO detected".to_owned()),
                None => None,
            };
            let detected_backend_detail = match &snapshot.installed_config_path {
                Some(p) => {
                    let mut v: Vec<char> = Vec::new();
                    extend_str(&mut v, "Equalizer APO ConfigPath: ");
                    extend_str(&mut v, p.as_str());
                    Some(string_of(&v))
                },
                None => None,
            };
            let r = EqBackendStatus {
                platform: "windows".to_owned(),
                state: state.to_owned(),
                backend_name: "Equalizer APO".to_owned(),
                status_label: label.to_owned(),
                status_detail: detail.to_owned(),
                active_group_name,
                active_preset_name,
                config_path: Some(snapshot.config_path),
                installed_config_path: snapshot.installed_config_path,
                active_export_path: None,
                pipewire_config_path: None,
                setup_action_label: "Open APO setup".to_owned(),
                detected_backend_label,
                detected_backend_detail,
                install_command: None,
                restart_command: None,
                setup_hint: None,
            };
            assert(r@ =~= windows_status(lib, connected));
            r
        },
        BackendFacts::Linux {
            active_export_path,
            pipewire_config_path,
            export_exists,
            pipewire_config_exists,
            detected_label,
            detected_detail,
            install_command,
        } => {
            let (state, label, detail) = if !has_active {
                (
                    "no_active_preset",
                    "No active preset",
                    "Choose a preset and press Apply. Linux exports are generated from the active preset.",
                )
            } else if export_exists && pipewire_config_exists {
                (
                    "export_ready",
                    "Linux EQ export ready",
                    "The active preset is exported and a PipeWire filter-chain config snippet exists. Restart PipeWire or your session if you just created it, then route audio to the generated EQ node.",
                )
            } else if export_exists {
                (
                    "setup_needed",
                    "Preset exported only",
                    "The active preset was exported for manual Linux EQ tools, but no PipeWire filter-chain config was generated.",
                )
            } else {
                (
                    "setup_needed",
                    "System EQ not connected",
                    "The preset is active inside SmartEQPresetSwitcher, but Linux system-wide EQ export has not been generated yet.",
                )
            };
            let setup_action_label = if pipewire_config_exists {
                "Restart PipeWire EQ".to_owned()
            } else {
                "Setup Linux EQ export".to_owned()
            };
            let setup_hint = if pipewire_config_exists {
                "PipeWire setup exists. Restart services or route audio to the SmartEQPresetSwitcher EQ node if you do not hear the EQ yet.".to_owned()
            } else if export_exists {
                "PipeWire setup was not generated. Try re-applying the preset; GraphicEQ presets are now converted to a parametric approximation automatically.".to_owned()
            } else {
                "Apply a preset, then run setup. For system-wide PipeWire auto-setup, prefer AutoEQ parametric presets with Filter lines.".to_owned()
            };
            let r = EqBackendStatus {
                platform: "linux".to_owned(),
                state: state.to_owned(),
                backend_name: "PipeWire / EasyEffects".to_owned(),
                status_label: label.to_owned(),
                status_detail: detail.to_owned(),
                active_group_name,
                active_preset_name,
                config_path: Some(snapshot.config_path),
                installed_config_path: None,
                active_export_path: Some(active_export_path),
                pipewire_config_path: Some(pipewire_config_path),
                setup_action_label,
                detected_backend_label: Some(detected_label),
                detected_backend_detail: Some(detected_detail),
                install_command: Some(install_command),
                restart_command: Some(linux_restart_command()),
                setup_hint: Some(setup_hint),
            };
            assert(r@ =~= linux_status(
                lib,
                active_export_path@,
                pipewire_config_path@,
                export_exists,
                pipewire_config_exists,
                detected_label@,
                detected_detail@,
                install_command@,
            ));
            r
        },
        BackendFacts::MacOs => {
            let r = EqBackendStatus {
                platform: "macos".to_owned(),
                state: "unsupported".to_owned(),
                backend_name: "Unsupported".to_owned(),
                status_label: "System EQ unsupported".to_owned(),
                status_detail: "macOS system-wide EQ setup is not implemented in this project.".to_owned(),
                active_group_name,
                active_preset_name,
                config_path: Some(snapshot.config_path),
                installed_config_path: snapshot.installed_config_path,
                active_export_path: None,
                pipewire_config_path: None,
                setup_action_label: "View details".to_owned(),
                detected_backend_label: None,
                detected_backend_detail: None,
                install_command: None,
                restart_command: None,
                setup_hint: None,
            };
            assert(r@ =~= unsupported_status(lib, true));
            r
        },
        BackendFacts::Other => {
            let r = EqBackendStatus {
                platform: "unknown".to_owned(),
                state: "unsupported".to_owned(),
                backend_name: "Unsupported".to_owned(),
                status_label: "System EQ unsupported".to_owned(),
                status_detail: "This platform does not have a supported SmartEQPresetSwitcher backend.".to_owned(),
                active_group_name,
                active_preset_name,
                config_path: Some(snapshot.config_path),
                installed_config_path: snapshot.installed_config_path,
                active_export_path: None,
                pipewire_config_path: None,
                setup_action_label: "View details".to_owned(),
                detected_backend_label: None,
                detected_backend_detail: None,
                install_command: None,
                restart_command: None,
                setup_hint: None,
            };
            assert(r@ =~= unsupported_status(lib, false));
            r
        },
    }
}


/// Whether setting up the Linux equalizer goes on to restart the audio
/// services and route audio to it: only when the export is ready.
pub fn should_restart_audio(status: &EqBackendStatus) -> (r: bool)
    ensures
        r == (status@.state == "export_ready"@),
{
    crate::text::str_eq(status.state.as_str(), "export_ready")
}

/// The error when restarting the PipeWire user services failed: `systemctl`
/// ran and failed, or could not be run.
pub fn restart_failure(systemctl_ran: bool) -> (r: crate::error::AppError)
    ensures
        r matches crate::error::AppError::Message(m) && m@ == (if systemctl_ran {
            "PipeWire setup file was written, but restarting user services failed. Run manually: "@
        } else {
            "PipeWire setup file was written, but systemctl was unavailable. Run manually: "@
        }) + restart_command_text(),
{
    let mut v: Vec<char> = Vec::new();
    if systemctl_ran {
        extend_str(
            &mut v,
            "PipeWire setup file was written, but restarting user services failed. Run manually: ",
        );
    } else {
        extend_str(&mut v, "PipeWire setup file was written, but systemctl was unavailable. Run manually: ");
    }
    let c = linux_restart_command();
    extend_str(&mut v, c.as_str());
    crate::error::AppError::Message(string_of(&v))
}

/// The error when `pactl` could not make the equalizer the default sink.
pub fn default_sink_failure(stdout: &str, stderr: &str) -> (r: crate::error::AppError)
    ensures
        r matches crate::error::AppError::Message(m) && m@
            == "PipeWire EQ was generated, but pactl could not set it as default. stdout='"@ + stdout@
            + "' stderr='"@ + stderr@ + "'"@,
{
    let mut v: Vec<char> = Vec::new();
    extend_str(&mut v, "PipeWire EQ was generated, but pactl could not set it as default. stdout='");
    extend_str(&mut v, stdout);
    extend_str(&mut v, "' stderr='");
    extend_str(&mut v, stderr);
    extend_str(&mut v, "'");
    crate::error::AppError::Message(string_of(&v))
}

} // verus!
