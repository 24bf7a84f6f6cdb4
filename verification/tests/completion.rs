use onomedit::completion::{generate, usage, Language, SHELLS};

const COMMANDS: &str = "completion config gui help history rename restore version";

#[test]
fn every_shell_contains_contract_surface() {
    for shell in SHELLS {
        let script = generate(shell, Language::ZhCn).unwrap();
        for command in
            "completion config gui help history rename restore version".split_whitespace()
        {
            assert!(script.contains(command), "{shell} omitted {command}");
        }
        assert!(!script.as_bytes().windows(2).any(|bytes| bytes == b"\r\n"));
    }
    let bash = generate("bash", Language::ZhCn).unwrap();
    for value in ["full", "name", "stem", "ext", "mtime", "readonly", "system"] {
        assert!(bash.contains(value));
    }
    let pwsh = generate("pwsh", Language::ZhCn).unwrap();
    assert!(pwsh.contains("Register-ArgumentCompleter -Native"));
    assert!(pwsh.contains("-CommandName onomedit, onomedit.exe"));
    let psc = generate("psc", Language::ZhCn).unwrap();
    assert!(psc.contains("Register-ArgumentCompleter -CommandName onomedit, onomedit.exe"));
    assert!(!psc.contains("Register-ArgumentCompleter -Native"));
    assert!(psc.contains("tip='生成 shell 补全脚本'"));
    assert!(psc.contains("tip='编辑器模式批量重命名'"));
    assert!(psc.contains("tip='完整路径'"));
}

#[test]
fn english_scripts_keep_the_contract_surface() {
    for shell in SHELLS {
        let script = generate(shell, Language::EnUs).unwrap();
        for command in COMMANDS.split_whitespace() {
            assert!(script.contains(command), "{shell} omitted {command}");
        }
        assert!(!script.contains('\r'));
    }
}

#[test]
fn no_script_holds_a_carriage_return() {
    for shell in SHELLS {
        for lang in [Language::ZhCn, Language::EnUs] {
            assert!(!generate(shell, lang).unwrap().contains('\r'));
        }
    }
}

#[test]
fn unknown_shells_have_no_script() {
    for shell in ["", "Bash", "bash ", "sh", "powershell", "cmd", "fish\n", "PSC"] {
        assert_eq!(generate(shell, Language::ZhCn), None);
        assert_eq!(generate(shell, Language::EnUs), None);
    }
}

#[test]
fn chinese_bash_script_is_the_template() {
    let bash = generate("bash", Language::ZhCn).unwrap();
    assert!(bash.starts_with("# bash completion for onomedit\n# 生成: onomedit completion bash\n"));
    assert!(bash.ends_with("complete -o default -F _onomedit onomedit\n"));
    assert!(bash.contains("# 安装到 ~/.bashrc:  source /path/to/onomedit.bash"));
}

#[test]
fn english_bash_script_translates_the_header() {
    let bash = generate("bash", Language::EnUs).unwrap();
    assert!(bash.starts_with(
        "# bash completion for onomedit\n# Generate: onomedit completion bash\n# Install到 ~/.bashrc:"
    ));
    assert!(!bash.contains("生成"));
}

#[test]
fn english_scripts_translate_the_listed_phrases() {
    let zsh = generate("zsh", Language::EnUs).unwrap();
    assert!(zsh.contains("'completion:Generate a shell completion script'"));
    assert!(zsh.contains("'config:View/change configuration'"));
    assert!(zsh.contains("'rename:Batch rename in editor mode'"));
    assert!(zsh.contains("'--dry-run[预览不执行]'"));
    let psc = generate("psc", Language::EnUs).unwrap();
    assert!(psc.contains("@{ name='full'; tip='Full path' }"));
    assert!(psc.contains("@{ name='name'; tip='File name only' }"));
    assert!(psc.contains("@{ name='stem'; tip='Without extension' }"));
    assert!(psc.contains("@{ name='ext'; tip='Extension only' }"));
    assert!(psc.contains("@{ name='bash'; tip='Generate bash completion' }"));
    assert!(!psc.contains("tip='生成 shell 补全脚本'"));
}

#[test]
fn pwsh_markers_become_two_spaces() {
    for lang in [Language::ZhCn, Language::EnUs] {
        let pwsh = generate("pwsh", lang).unwrap();
        assert!(!pwsh.contains("@@TWO_SPACES@@"));
        assert!(pwsh.contains("\n  \n      $candidates = @()"));
        assert!(pwsh.contains("\n  \n      $candidates | Where-Object"));
    }
}

#[test]
fn chinese_and_english_scripts_differ_only_where_phrases_were() {
    for shell in ["bash", "fish"] {
        let zh = generate(shell, Language::ZhCn).unwrap();
        let en = generate(shell, Language::EnUs).unwrap();
        let expected = zh
            .replace("生成", "Generate")
            .replace("补全", "completion")
            .replace("安装", "Install");
        assert_eq!(en, expected);
    }
}

#[test]
fn usage_in_each_language() {
    assert_eq!(
        usage(Language::ZhCn),
        "示例:\n  onomedit completion bash > ~/.local/share/bash-completion/completions/onomedit\n  onomedit completion zsh  > ~/.zfunc/_onomedit\n  onomedit completion pwsh > \"$HOME\\Documents\\PowerShell\\onomedit.ps1\"\n  onomedit completion fish > ~/.config/fish/completions/onomedit.fish\n  onomedit completion psc  > \"$HOME\\Documents\\PowerShell\\onomedit.psc.ps1\""
    );
    assert_eq!(
        usage(Language::EnUs),
        "Examples:\n  onomedit completion bash > ~/.local/share/bash-completion/completions/onomedit\n  onomedit completion zsh  > ~/.zfunc/_onomedit\n  onomedit completion pwsh > \"$HOME\\Documents\\PowerShell\\onomedit.ps1\"\n  onomedit completion fish > ~/.config/fish/completions/onomedit.fish\n  onomedit completion psc  > \"$HOME\\Documents\\PowerShell\\onomedit.psc.ps1\""
    );
}

#[test]
fn usage_names_every_shell() {
    for lang in [Language::ZhCn, Language::EnUs] {
        for shell in SHELLS {
            assert!(usage(lang).contains(&format!("onomedit completion {shell}")));
        }
    }
}
