//! The integrations that are looked after, and what is read from and said
//! to the programs around them.

use crate::installer::{classify_listing, classify_tool, listing_result, ProbeResult};
use crate::text::{
    append_bytes, ascii, contains, copy_range, ends_with, has, has_prefix, has_suffix, HYPHEN,
    index_of, line_views, literal_bytes, position_of, QUOTE, split_into_lines, split_lines,
    starts_with, trim, trimmed,
};
use vstd::prelude::*;
use vstd::slice::slice_to_vec;

verus! {

/// The operating systems that are told apart.
#[derive(Clone, Copy, Debug, PartialEq, Eq, Structural)]
pub enum Platform {
    Windows,
    MacOs,
    Linux,
}

/// The processor families that downloads exist for.
#[derive(Clone, Copy, Debug, PartialEq, Eq, Structural)]
pub enum Arch {
    Arm64,
    Amd64,
}

/// The package managers that can install git.
#[derive(Clone, Copy, Debug, PartialEq, Eq, Structural)]
pub enum PackageManager {
    Winget,
    Homebrew,
    Apt,
    Dnf,
    Pacman,
    Nix,
}

/// The package manager to use. Windows has winget and macOS has
/// Homebrew. On Linux the text of the release file decides, and the first
/// family it names wins: Debian's, then Red Hat's, then Arch, then Nix.
pub open spec fn manager_for(platform: Platform, os_release: Seq<u8>) -> Option<PackageManager> {
    match platform {
        Platform::Windows => Some(PackageManager::Winget),
        Platform::MacOs => Some(PackageManager::Homebrew),
        Platform::Linux => if contains(os_release, ascii("ubuntu"@)) || contains(
            os_release,
            ascii("debian"@),
        ) {
            Some(PackageManager::Apt)
        } else if contains(os_release, ascii("fedora"@)) || contains(os_release, ascii("rhel"@))
            || contains(os_release, ascii("centos"@)) {
            Some(PackageManager::Dnf)
        } else if contains(os_release, ascii("arch"@)) {
            Some(PackageManager::Pacman)
        } else if contains(os_release, ascii("nix"@)) {
            Some(PackageManager::Nix)
        } else {
            None
        },
    }
}

/// The command that installs git.
pub open spec fn git_install_command(manager: PackageManager) -> Seq<u8> {
    match manager {
        PackageManager::Winget => ascii("winget install --id Git.Git -e --source winget"@),
        PackageManager::Homebrew => ascii("brew install git"@),
        PackageManager::Apt => ascii("sudo apt-get install -y git"@),
        PackageManager::Dnf => ascii("sudo dnf install -y git"@),
        PackageManager::Pacman => ascii("sudo pacman -Sy git --noconfirm"@),
        PackageManager::Nix => ascii("sudo nix-env -i git"@),
    }
}

/// The command to run before installing, where there is one.
pub open spec fn refresh_command(manager: PackageManager) -> Option<Seq<u8>> {
    match manager {
        PackageManager::Apt => Some(ascii("sudo apt-get update"@)),
        _ => None,
    }
}

/// Where git can be had by hand.
pub open spec fn git_download_page(platform: Platform) -> Seq<u8> {
    match platform {
        Platform::Windows => ascii("https://git-scm.com/downloads/win"@),
        Platform::MacOs => ascii("https://git-scm.com/downloads/mac"@),
        Platform::Linux => ascii("https://git-scm.com/downloads"@),
    }
}

/// Picks the package manager.
pub fn detect_manager(platform: Platform, os_release: &[u8]) -> (manager: Option<PackageManager>)
    ensures
        manager == manager_for(platform, os_release@),
{
    proof {
        reveal_strlit("ubuntu");
        reveal_strlit("debian");
        reveal_strlit("fedora");
        reveal_strlit("rhel");
        reveal_strlit("centos");
        reveal_strlit("arch");
        reveal_strlit("nix");
    }
    match platform {
        Platform::Windows => Some(PackageManager::Winget),
        Platform::MacOs => Some(PackageManager::Homebrew),
        Platform::Linux => {
            if has(os_release, literal_bytes("ubuntu").as_slice()) || has(
                os_release,
                literal_bytes("debian").as_slice(),
            ) {
                Some(PackageManager::Apt)
            } else if has(os_release, literal_bytes("fedora").as_slice()) || has(
                os_release,
                literal_bytes("rhel").as_slice(),
            ) || has(os_release, literal_bytes("centos").as_slice()) {
                Some(PackageManager::Dnf)
            } else if has(os_release, literal_bytes("arch").as_slice()) {
                Some(PackageManager::Pacman)
            } else if has(os_release, literal_bytes("nix").as_slice()) {
                Some(PackageManager::Nix)
            } else {
                None
            }
        },
    }
}

/// The command that installs git.
pub fn git_install_command_bytes(manager: PackageManager) -> (out: Vec<u8>)
    ensures
        out@ == git_install_command(manager),
{
    proof {
        reveal_strlit("winget install --id Git.Git -e --source winget");
        reveal_strlit("brew install git");
        reveal_strlit("sudo apt-get install -y git");
        reveal_strlit("sudo dnf install -y git");
        reveal_strlit("sudo pacman -Sy git --noconfirm");
        reveal_strlit("sudo nix-env -i git");
    }
    match manager {
        PackageManager::Winget => literal_bytes("winget install --id Git.Git -e --source winget"),
        PackageManager::Homebrew => literal_bytes("brew install git"),
        PackageManager::Apt => literal_bytes("sudo apt-get install -y git"),
        PackageManager::Dnf => literal_bytes("sudo dnf install -y git"),
        PackageManager::Pacman => literal_bytes("sudo pacman -Sy git --noconfirm"),
        PackageManager::Nix => literal_bytes("sudo nix-env -i git"),
    }
}

/// The command to run before installing, where there is one.
pub fn refresh_command_bytes(manager: PackageManager) -> (out: Option<Vec<u8>>)
    ensures
        match out {
            Some(bytes) => refresh_command(manager) == Some(bytes@),
            None => refresh_command(manager) is None,
        },
{
    proof {
        reveal_strlit("sudo apt-get update");
    }
    match manager {
        PackageManager::Apt => Some(literal_bytes("sudo apt-get update")),
        _ => None,
    }
}

/// Where git can be had by hand.
pub fn git_download_page_bytes(platform: Platform) -> (out: Vec<u8>)
    ensures
        out@ == git_download_page(platform),
{
    proof {
        reveal_strlit("https://git-scm.com/downloads/win");
        reveal_strlit("https://git-scm.com/downloads/mac");
        reveal_strlit("https://git-scm.com/downloads");
    }
    match platform {
        Platform::Windows => literal_bytes("https://git-scm.com/downloads/win"),
        Platform::MacOs => literal_bytes("https://git-scm.com/downloads/mac"),
        Platform::Linux => literal_bytes("https://git-scm.com/downloads"),
    }
}

/// The editor extension, as the editor lists it.
pub open spec fn extension_id() -> Seq<u8> {
    ascii("wakatime.vscode-wakatime"@)
}

/// What in the editor's settings overrides the extension.
pub open spec fn override_prefix() -> Seq<u8> {
    ascii("wakatime."@)
}

/// The editor extension, as the editor lists it.
pub fn extension_id_bytes() -> (out: Vec<u8>)
    ensures
        out@ == extension_id(),
{
    proof {
        reveal_strlit("wakatime.vscode-wakatime");
    }
    literal_bytes("wakatime.vscode-wakatime")
}

/// Whether the editor's settings override the extension.
pub fn overrides_settings(settings: &[u8]) -> (overridden: bool)
    ensures
        overridden == contains(settings@, override_prefix()),
{
    proof {
        reveal_strlit("wakatime.");
    }
    has(settings, literal_bytes("wakatime.").as_slice())
}

/// The ending of a launcher script on Windows.
pub open spec fn script_suffix() -> Seq<u8> {
    ascii(".cmd"@)
}

/// The name of the IDE that a launcher script starts. On Windows the
/// launchers are the files that end in `.cmd`, named without that ending;
/// elsewhere they are the files that do not end in it.
pub open spec fn launcher_name(file: Seq<u8>, windows: bool) -> Option<Seq<u8>> {
    if ends_with(file, script_suffix()) {
        if windows {
            Some(file.subrange(0, file.len() - script_suffix().len()))
        } else {
            None
        }
    } else {
        if windows {
            None
        } else {
            Some(file)
        }
    }
}

/// The IDE plugin, as the plugin repository and the IDEs name it.
pub open spec fn plugin_id() -> Seq<u8> {
    ascii("com.wakatime.intellij.plugin"@)
}

/// The command that installs the plugin through a launcher.
pub open spec fn plugin_command(launcher: Seq<u8>) -> Seq<u8> {
    launcher + ascii(" installPlugins "@) + plugin_id()
}

/// The name of the IDE that a launcher script starts.
pub fn launcher_name_of(file: &[u8], windows: bool) -> (name: Option<Vec<u8>>)
    ensures
        match name {
            Some(n) => launcher_name(file@, windows) == Some(n@),
            None => launcher_name(file@, windows) is None,
        },
{
    proof {
        reveal_strlit(".cmd");
    }
    let suffix = literal_bytes(".cmd");
    if has_suffix(file, suffix.as_slice()) {
        if windows {
            Some(copy_range(file, 0, file.len() - suffix.len()))
        } else {
            None
        }
    } else {
        if windows {
            None
        } else {
            Some(slice_to_vec(file))
        }
    }
}

/// The IDE plugin, as the plugin repository and the IDEs name it.
pub fn plugin_id_bytes() -> (out: Vec<u8>)
    ensures
        out@ == plugin_id(),
{
    proof {
        reveal_strlit("com.wakatime.intellij.plugin");
    }
    literal_bytes("com.wakatime.intellij.plugin")
}

/// The command that installs the plugin through a launcher.
pub fn plugin_command_bytes(launcher: &[u8]) -> (out: Vec<u8>)
    ensures
        out@ == plugin_command(launcher@),
{
    proof {
        reveal_strlit(" installPlugins ");
    }
    let mut out = slice_to_vec(launcher);
    append_bytes(&mut out, literal_bytes(" installPlugins ").as_slice());
    append_bytes(&mut out, plugin_id_bytes().as_slice());
    out
}

/// What precedes the tag in the description of a release.
pub open spec fn tag_label() -> Seq<u8> {
    ascii("\"tag_name\":"@)
}

/// The first double-quoted text in `s`.
pub open spec fn quoted(s: Seq<u8>) -> Option<Seq<u8>> {
    let open = index_of(s, QUOTE);
    if open < s.len() {
        let after = s.subrange(open + 1, s.len() as int);
        let close = index_of(after, QUOTE);
        if close < after.len() {
            Some(after.subrange(0, close))
        } else {
            None
        }
    } else {
        None
    }
}

/// A line names the tag when, trimmed, it starts with the label.
pub open spec fn names_tag(line: Seq<u8>) -> bool {
    starts_with(trim(line), tag_label())
}

/// The tag that a line names: the quoted text after the label.
pub open spec fn tag_of_line(line: Seq<u8>) -> Option<Seq<u8>> {
    quoted(trim(line).subrange(tag_label().len() as int, trim(line).len() as int))
}

/// The tag named by the first line from `i` on that names one.
pub open spec fn tag_from(lines: Seq<Seq<u8>>, i: int) -> Option<Seq<u8>>
    decreases lines.len() - i,
{
    if i < 0 || i >= lines.len() {
        None
    } else if names_tag(lines[i]) {
        tag_of_line(lines[i])
    } else {
        tag_from(lines, i + 1)
    }
}

/// The tag of a release, from its description: the quoted text on the
/// first line that starts with the label.
pub open spec fn release_tag(description: Seq<u8>) -> Option<Seq<u8>> {
    tag_from(split_lines(description), 0)
}

/// The first double-quoted text in `s`.
pub fn quoted_in(s: &[u8]) -> (out: Option<Vec<u8>>)
    ensures
        match out {
            Some(q) => quoted(s@) == Some(q@),
            None => quoted(s@) is None,
        },
{
    let open = position_of(s, QUOTE);
    if open < s.len() {
        let after = copy_range(s, open + 1, s.len());
        let close = position_of(after.as_slice(), QUOTE);
        if close < after.len() {
            Some(copy_range(after.as_slice(), 0, close))
        } else {
            None
        }
    } else {
        None
    }
}

/// Reads the tag of a release from its description.
pub fn read_release_tag(description: &[u8]) -> (tag: Option<Vec<u8>>)
    ensures
        match tag {
            Some(t) => release_tag(description@) == Some(t@),
            None => release_tag(description@) is None,
        },
{
    proof {
        reveal_strlit("\"tag_name\":");
    }
    let label = literal_bytes("\"tag_name\":");
    let lines = split_into_lines(description);
    let mut i: usize = 0;
    while i < lines.len()
        invariant
            i <= lines@.len(),
            label@ == tag_label(),
            line_views(lines@) == split_lines(description@),
            tag_from(split_lines(description@), 0) == tag_from(split_lines(description@), i as int),
        decreases lines@.len() - i,
    {
        let inner = trimmed(lines[i].as_slice());
        if has_prefix(inner.as_slice(), label.as_slice()) {
            let rest = copy_range(inner.as_slice(), label.len(), inner.len());
            return quoted_in(rest.as_slice());
        }
        i += 1;
    }
    None
}

/// How downloads name an operating system.
pub open spec fn platform_name(platform: Platform) -> Seq<u8> {
    match platform {
        Platform::Windows => ascii("windows"@),
        Platform::MacOs => ascii("darwin"@),
        Platform::Linux => ascii("linux"@),
    }
}

/// How downloads name a processor family.
pub open spec fn arch_name(arch: Arch) -> Seq<u8> {
    match arch {
        Arch::Arm64 => ascii("arm64"@),
        Arch::Amd64 => ascii("amd64"@),
    }
}

/// Where the terminal tracker of a release is downloaded.
pub open spec fn download_url(tag: Seq<u8>, platform: Platform, arch: Arch) -> Seq<u8> {
    ascii("https://github.com/hackclub/terminal-wakatime/releases/download/"@) + tag + ascii(
        "/terminal-wakatime-"@,
    ) + platform_name(platform) + seq![HYPHEN] + arch_name(arch)
}

/// Where the terminal tracker of a release is downloaded.
pub fn download_url_bytes(tag: &[u8], platform: Platform, arch: Arch) -> (out: Vec<u8>)
    ensures
        out@ == download_url(tag@, platform, arch),
{
    proof {
        reveal_strlit("https://github.com/hackclub/terminal-wakatime/releases/download/");
        reveal_strlit("/terminal-wakatime-");
        reveal_strlit("windows");
        reveal_strlit("darwin");
        reveal_strlit("linux");
        reveal_strlit("arm64");
        reveal_strlit("amd64");
    }
    let mut out = literal_bytes("https://github.com/hackclub/terminal-wakatime/releases/download/");
    append_bytes(&mut out, tag);
    append_bytes(&mut out, literal_bytes("/terminal-wakatime-").as_slice());
    let os = match platform {
        Platform::Windows => literal_bytes("windows"),
        Platform::MacOs => literal_bytes("darwin"),
        Platform::Linux => literal_bytes("linux"),
    };
    append_bytes(&mut out, os.as_slice());
    out.push(HYPHEN);
    let family = match arch {
        Arch::Arm64 => literal_bytes("arm64"),
        Arch::Amd64 => literal_bytes("amd64"),
    };
    append_bytes(&mut out, family.as_slice());
    out
}

/// One integration that may be installed: what it is called, how to find
/// out whether it is there, and how to install it. A target holds no
/// state; what the probe found is kept by whoever runs it.
#[derive(Debug, PartialEq, Eq)]
pub struct IntegrationTarget {
    /// The name shown to the user.
    pub name: Vec<u8>,
    /// The command line of the probe. It is empty where no command gives
    /// the listing and the caller has to put it together.
    pub probe: Vec<u8>,
    /// What the probe's output has to name for the integration to count as
    /// present. Without it, the probe running at all means present.
    pub item: Option<Vec<u8>>,
    /// The command line that installs the integration, where one command
    /// does it.
    pub install: Option<Vec<u8>>,
}

/// A target as contracts see it.
pub struct TargetView {
    pub name: Seq<u8>,
    pub probe: Seq<u8>,
    pub item: Option<Seq<u8>>,
    pub install: Option<Seq<u8>>,
}

/// The view of an optional byte string.
pub open spec fn seq_of(o: Option<Vec<u8>>) -> Option<Seq<u8>> {
    match o {
        Some(v) => Some(v@),
        None => None,
    }
}

impl View for IntegrationTarget {
    type V = TargetView;

    open spec fn view(&self) -> TargetView {
        TargetView {
            name: self.name@,
            probe: self.probe@,
            item: seq_of(self.item),
            install: seq_of(self.install),
        }
    }
}

/// Git, installed through the platform's package manager where one is
/// known.
pub open spec fn git_target(platform: Platform, os_release: Seq<u8>) -> TargetView {
    TargetView {
        name: ascii("git"@),
        probe: ascii("git -v"@),
        item: None,
        install: match manager_for(platform, os_release) {
            Some(manager) => Some(git_install_command(manager)),
            None => None,
        },
    }
}

/// The editor extension, installed by the editor itself.
pub open spec fn editor_target() -> TargetView {
    TargetView {
        name: ascii("VS Code"@),
        probe: ascii("code --list-extensions"@),
        item: Some(extension_id()),
        install: Some(ascii("code --install-extension wakatime.vscode-wakatime --force"@)),
    }
}

/// The terminal tracker, which is downloaded rather than installed by a
/// command.
pub open spec fn terminal_target() -> TargetView {
    TargetView {
        name: ascii("the terminal"@),
        probe: ascii("terminal-wakatime"@),
        item: None,
        install: None,
    }
}

/// The plugin of one IDE, installed through the IDE's launcher. No
/// command lists the plugins of an IDE, so the probe is empty: the listing
/// handed to `target_result` names what is found where the IDE keeps its
/// plugins, and the plugin is present where the listing names it.
pub open spec fn ide_target(name: Seq<u8>, launcher: Seq<u8>) -> TargetView {
    TargetView {
        name,
        probe: Seq::<u8>::empty(),
        item: Some(plugin_id()),
        install: Some(plugin_command(launcher)),
    }
}

/// What the probe of a target found, from its output, or from `None`
/// where the probe could not be run or failed. A probe that lists items
/// cannot answer when it did not run; a probe that is the tool itself
/// shows by not running that the tool is absent.
pub open spec fn target_result(target: TargetView, output: Option<Seq<u8>>) -> ProbeResult {
    match target.item {
        Some(item) => listing_result(output, item),
        None => if output is Some {
            ProbeResult::Present
        } else {
            ProbeResult::Absent
        },
    }
}

impl IntegrationTarget {
    /// Git.
    pub fn git(platform: Platform, os_release: &[u8]) -> (target: IntegrationTarget)
        ensures
            target@ == git_target(platform, os_release@),
    {
        proof {
            reveal_strlit("git");
            reveal_strlit("git -v");
        }
        let install = match detect_manager(platform, os_release) {
            Some(manager) => Some(git_install_command_bytes(manager)),
            None => None,
        };
        IntegrationTarget {
            name: literal_bytes("git"),
            probe: literal_bytes("git -v"),
            item: None,
            install,
        }
    }

    /// The editor extension.
    pub fn editor() -> (target: IntegrationTarget)
        ensures
            target@ == editor_target(),
    {
        proof {
            reveal_strlit("VS Code");
            reveal_strlit("code --list-extensions");
            reveal_strlit("code --install-extension wakatime.vscode-wakatime --force");
        }
        IntegrationTarget {
            name: literal_bytes("VS Code"),
            probe: literal_bytes("code --list-extensions"),
            item: Some(extension_id_bytes()),
            install: Some(
                literal_bytes("code --install-extension wakatime.vscode-wakatime --force"),
            ),
        }
    }

    /// The terminal tracker.
    pub fn terminal() -> (target: IntegrationTarget)
        ensures
            target@ == terminal_target(),
    {
        proof {
            reveal_strlit("the terminal");
            reveal_strlit("terminal-wakatime");
        }
        IntegrationTarget {
            name: literal_bytes("the terminal"),
            probe: literal_bytes("terminal-wakatime"),
            item: None,
            install: None,
        }
    }

    /// The plugin of the IDE called `name`, installed through `launcher`.
    pub fn ide(name: &[u8], launcher: &[u8]) -> (target: IntegrationTarget)
        ensures
            target@ == ide_target(name@, launcher@),
    {
        IntegrationTarget {
            name: slice_to_vec(name),
            probe: Vec::new(),
            item: Some(plugin_id_bytes()),
            install: Some(plugin_command_bytes(launcher)),
        }
    }

    /// Classifies what the probe printed; `None` stands for a probe that
    /// could not be run or failed.
    pub fn classify(&self, output: Option<&[u8]>) -> (result: ProbeResult)
        ensures
            result == target_result(
                self@,
                match output {
                    Some(text) => Some(text@),
                    None => None,
                },
            ),
    {
        match &self.item {
            Some(item) => classify_listing(output, item.as_slice()),
            None => classify_tool(output.is_some()),
        }
    }
}

} // verus!
