//! Shell completion scripts for the `onomedit` command line, and the help
//! text that shows how to install them, in the two interface languages.
//!
//! Each script is a template written in Chinese; the English script is the
//! template with a fixed list of phrases replaced, in order.
use vstd::prelude::*;

use crate::text::{
    agree, cannot_overlap, from_chars, law_replaced_adds_no_character, law_replaced_keeps_text,
    lemma_cannot_overlap_by_first_chars, occurs_at, occurs_in, push_all, replace_chars, framed, law_replaced_translates_framed, law_replaced_leaves_no_text,
    lemma_absent_by_first_char, law_replaced_splits_before_tail, lemma_ascii_str, all_ascii, lemma_ascii_lacks,
    lemma_no_match_starts_by_first_char, law_replaced_keeps_prefix, no_match_starts_in, replaced, str_equal,
    to_chars,
};

verus! {

broadcast use vstd::string::group_string_axioms;

/// The interface language a script or help text is written in.
#[derive(Clone, Copy, Debug, PartialEq, Eq, Structural)]
pub enum Language {
    ZhCn,
    EnUs,
}

/// The shells for which `generate` writes a completion script.
pub const SHELLS: [&'static str; 5] = ["bash", "zsh", "pwsh", "fish", "psc"];

/// The first lines of the bash completion script.
pub const BASH_HEADER: &'static str = "# bash completion for onomedit\n";

/// The rest of the bash completion script, after its header.
pub const BASH_BODY: &'static str = r#"# 生成: onomedit completion bash
# 安装到 ~/.bashrc:  source /path/to/onomedit.bash
_onomedit()
{
    local cur prev
    COMPREPLY=()
    cur="${COMP_WORDS[COMP_CWORD]}"
    prev="${COMP_WORDS[COMP_CWORD-1]}"

    local comps
    if [ "$COMP_CWORD" -eq 1 ]; then
        comps="completion config gui help history rename restore version"
    else
        case "${COMP_WORDS[1]}" in
        rename)
            comps="--dry-run --no-editor --multi-tab --reverse --timeout= --depth= --sort-by= --exclude= --path-type="
            ;;

        restore)
            comps="--all --partial"
            ;;

        history)
            comps="--all"
            ;;

        help)
            comps="completion config gui help history rename restore version"
            ;;
        config)
            case "$prev" in
                set) comps="--help" ;;
                *)    comps="set set-editor reset" ;;
            esac
            ;;

            *) comps="" ;;
        esac
    fi

    # 值型选项的取值补全
    case "$prev" in
        --path-type) COMPREPLY=( $(compgen -W "full name stem ext" -- "$cur") ); return 0 ;;
        --sort-by) COMPREPLY=( $(compgen -W "default name path mtime ctime size" -- "$cur") ); return 0 ;;
        --exclude) COMPREPLY=( $(compgen -W "f file d dir l link r readonly h hidden s system" -- "$cur") ); return 0 ;;
        *) ;;
    esac

    if [ -n "$comps" ]; then
        COMPREPLY=( $(compgen -W "$comps" -- "$cur") )
    fi
    return 0
}

"#;

/// The last lines of the bash completion script.
pub const BASH_FOOTER: &'static str = r#"complete -o default -F _onomedit onomedit
"#;

/// The first lines of the zsh completion script.
pub const ZSH_HEADER: &'static str = "#compdef onomedit\n# zsh completion for onomedit\n";

/// The rest of the zsh completion script, after its header.
pub const ZSH_BODY: &'static str = r#"# 生成: onomedit completion zsh
# 安装: 放到 fpath, 如 ~/.zfunc/_onomedit, 并确保 ~/.zfunc 在 fpath 中
#       然后 compinit.

_onomedit() {
    local -a commands
    commands=(
        'completion:生成 shell 补全脚本'
        'config:查看/设置配置'
        'gui:启动图形界面'
        'help:显示帮助信息'
        'history:查看重命名日志'
        'rename:编辑器模式批量重命名'
        'restore:恢复重命名'
        'version:版本信息'
    )

    if (( CURRENT == 2 )); then
        _describe -t commands 'onomedit 子命令' commands
        return
    fi

    case "$words[2]" in
        rename)
            _arguments -s \
                '--dry-run[预览不执行]'
                '--no-editor[跳过编辑器]'
                '--multi-tab[多标签编辑器]'
                '--reverse[反转顺序]'
                '--timeout=[编辑器等待超时]:秒'
                '--depth=[目录搜索深度]:层级'
                '--path-type=[路径类型]:类型:(full name stem ext)'
                '--sort-by=[重命名顺序]:键:(default name path mtime ctime size)'
                '--exclude=[排除类型]:类型:(f file d dir l link r readonly h hidden s system)'
                '*:文件:_files'
            ;;
        restore)
            _arguments -s '--all[恢复全部历史]' '--partial[编辑器筛选日志行]'
            ;;
        history)
            _arguments -s '--all[查看全部历史]'
            ;;
        config)
            _arguments -s                 'set:设置配置项'                 'set-editor:设置编辑器'                 'reset:重置默认配置'
            ;;
        completion)
            _arguments -s '1:shell:(bash zsh pwsh fish psc)'
            ;;
        help)
            _values 'topic' completion config gui help history rename restore version
            ;;
    esac
}

"#;

/// The last lines of the zsh completion script.
pub const ZSH_FOOTER: &'static str = r#"_onomedit
"#;

/// The first lines of the PowerShell completion script.
pub const PWSH_HEADER: &'static str = "# PowerShell completion for onomedit\n";

/// The rest of the PowerShell completion script, after its header.
pub const PWSH_BODY: &'static str = r#"# 生成: onomedit completion pwsh
# 安装: 把下面内容写入 $PROFILE (或单独文件后在 profile 中 . 或 Import)

Register-ArgumentCompleter -Native -CommandName onomedit, onomedit.exe -ScriptBlock {
    param($wordToComplete, $commandAst, $cursorPosition)

    # 已敲入的参数（不含最后一个补全中的词）
    $tokens = $commandAst.CommandElements | ForEach-Object { $_.Extent.Text }
    # 已知子命令；只有完整命中才视为子命令。否则视为第一级补全——CommandElements
    # 会把正在补全的半截词也算作元素，直接取 $tokens[1] 会让一级子命令补全失效。
    $cmds = 'completion config gui help history rename restore version'.Split(' ')
    $cmd = if ($tokens.Count -gt 1 -and $cmds -contains $tokens[1]) { $tokens[1] } else { '' }

    # 值型选项的取值
    $valueMap = @{
        '--path-type' = 'full','name','stem','ext'
        '--sort-by'   = 'default','name','path','mtime','ctime','size'
        '--exclude'   = 'f','file','d','dir','l','link','r','readonly','h','hidden','s','system'
    }

          # 当前补全目标前一个参数（用于值型选项）
      $last = $tokens[$tokens.Count - 1]
      if ($valueMap.ContainsKey($last)) {
          $valueMap[$last] | Where-Object { $_ -like "$wordToComplete*" } |
              ForEach-Object { [System.Management.Automation.CompletionResult]::new($_, $_, 'ParameterValue', $_) }
          return
      }
@@TWO_SPACES@@
      $candidates = @()
      switch ($cmd) {
          '' { $candidates = $cmds }
          'rename' {
              $candidates = '--dry-run','--no-editor','--multi-tab','--reverse',
                  '--timeout','--depth','--sort-by','--exclude','--path-type'
          }
          'restore' { $candidates = '--all','--partial' }
          'history' { $candidates = '--all' }
          'config'  { $candidates = 'set','set-editor','reset' }
          'completion' { $candidates = 'bash','zsh','pwsh','fish','psc' }
          'help'    { $candidates = 'completion config gui help history rename restore version'.Split(' ') }
          default   { $candidates = @() }
      }
@@TWO_SPACES@@
      $candidates | Where-Object { $_ -like "$wordToComplete*" } |
"#;

/// The last lines of the PowerShell completion script.
pub const PWSH_FOOTER: &'static str = r#"          ForEach-Object { [System.Management.Automation.CompletionResult]::new($_, $_, 'ParameterValue', $_) }
}
"#;

/// The first lines of the fish completion script.
pub const FISH_HEADER: &'static str = "# fish completion for onomedit\n";

/// The rest of the fish completion script, after its header.
pub const FISH_BODY: &'static str = r#"# 生成: onomedit completion fish
# 安装到 ~/.config/fish/completions/onomedit.fish

complete -c onomedit -f -n '__fish_use_subcommand' -a 'completion'
complete -c onomedit -f -n '__fish_use_subcommand' -a 'config'
complete -c onomedit -f -n '__fish_use_subcommand' -a 'gui'
complete -c onomedit -f -n '__fish_use_subcommand' -a 'help'
complete -c onomedit -f -n '__fish_use_subcommand' -a 'history'
complete -c onomedit -f -n '__fish_use_subcommand' -a 'rename'
complete -c onomedit -f -n '__fish_use_subcommand' -a 'restore'
complete -c onomedit -f -n '__fish_use_subcommand' -a 'version'

complete -c onomedit -f -n '__fish_seen_subcommand_from rename' -l dry-run -d '--dry-run'
complete -c onomedit -f -n '__fish_seen_subcommand_from rename' -l no-editor -d '--no-editor'
complete -c onomedit -f -n '__fish_seen_subcommand_from rename' -l multi-tab -d '--multi-tab'
complete -c onomedit -f -n '__fish_seen_subcommand_from rename' -l reverse -d '--reverse'
complete -c onomedit -f -n '__fish_seen_subcommand_from rename' -l path-type -x -a 'full name stem ext' -d 'path-type'
complete -c onomedit -f -n '__fish_seen_subcommand_from rename' -l sort-by -x -a 'default name path mtime ctime size' -d 'sort-by'
complete -c onomedit -f -n '__fish_seen_subcommand_from rename' -l exclude -x -a 'f file d dir l link r readonly h hidden s system' -d 'exclude'
complete -c onomedit -f -n '__fish_seen_subcommand_from rename' -l timeout -r -d 'timeout'
complete -c onomedit -f -n '__fish_seen_subcommand_from rename' -l depth -r -d 'depth'

complete -c onomedit -f -n '__fish_seen_subcommand_from restore' -l all -d '--all'
complete -c onomedit -f -n '__fish_seen_subcommand_from restore' -l partial -d '--partial'

complete -c onomedit -f -n '__fish_seen_subcommand_from history' -l all -d '--all'


complete -c onomedit -f -n '__fish_seen_subcommand_from config' -a 'set set-editor reset'
complete -c onomedit -f -n '__fish_seen_subcommand_from completion' -a 'bash zsh pwsh fish psc'
"#;

/// The last lines of the fish completion script.
pub const FISH_FOOTER: &'static str = r#"complete -c onomedit -f -n '__fish_seen_subcommand_from help' -a 'completion config gui help history rename restore version'
"#;

/// The first lines of the PSCompletions completion script.
pub const PSC_HEADER: &'static str = "# PSCompletions completion for onomedit\n";

/// The rest of the PSCompletions completion script, after its header.
pub const PSC_BODY: &'static str = r#"# 生成: onomedit completion psc
# 用法: 配合 PSCompletions 模块（候选带 tip 提示）。把本脚本存为独立文件后在
#       $PROFILE 中 . 加载，或按 PSCompletions 的做法放置为补全文件。

Register-ArgumentCompleter -CommandName onomedit, onomedit.exe -ScriptBlock {
    param($wordToComplete, $commandAst, $cursorPosition)

    [Console]::InputEncoding = [Console]::OutputEncoding = $OutputEncoding = [System.Text.Utf8Encoding]::new()

    # 已敲入的完成参数；不含正在补全的半截词，由 prevIdx 处理。
    $tokens = $commandAst.CommandElements | ForEach-Object { $_.Extent.Text }
    $cmds = 'completion config gui help history rename restore version'.Split(' ')
    # 仅当 $tokens[1] 完整命中已知子命令才视为子命令；否则视为第一级补全——
    # CommandElements 会把正在补全的半截词也算作元素，直接取 $tokens[1] 会让
    # 一级子命令补全失效。
    $cmd = if ($tokens.Count -gt 1 -and $cmds -contains $tokens[1]) { $tokens[1] } else { '' }

    # 子命令候选（带 tip）
    $commands = @(
        @{ name='completion'; tip='生成 shell 补全脚本' }
        @{ name='config'; tip='查看/设置配置' }
        @{ name='gui'; tip='启动图形界面' }
        @{ name='help'; tip='显示帮助信息' }
        @{ name='history'; tip='查看重命名日志' }
        @{ name='rename'; tip='编辑器模式批量重命名' }
        @{ name='restore'; tip='恢复重命名' }
        @{ name='version'; tip='版本信息' }
    )

    # 值型选项 -> 取值候选（带 tip）
    $valueMap = @{
        '--path-type' = @(
            @{ name='full'; tip='完整路径' },
            @{ name='name'; tip='完整文件名' },
            @{ name='stem'; tip='不含扩展名' },
            @{ name='ext'; tip='仅扩展名' }
        )
        '--sort-by' = @(
            @{ name='default'; tip='默认' },
            @{ name='name'; tip='名称' },
            @{ name='path'; tip='路径' },
            @{ name='mtime'; tip='修改时间' },
            @{ name='ctime'; tip='创建时间' },
            @{ name='size'; tip='大小' }
        )
        '--exclude' = @(
            @{ name='f'; tip='文件' },
            @{ name='file'; tip='文件' },
            @{ name='d'; tip='目录' },
            @{ name='dir'; tip='目录' },
            @{ name='l'; tip='链接' },
            @{ name='link'; tip='链接' },
            @{ name='r'; tip='只读' },
            @{ name='readonly'; tip='只读' },
            @{ name='h'; tip='隐藏' },
            @{ name='hidden'; tip='隐藏' },
            @{ name='s'; tip='系统' },
            @{ name='system'; tip='系统' }
        )
    }

    # rename 子命令的选项候选（带 tip）；布尔选项与值型选项
    $renameOpts = @(
        @{ name='--dry-run'; tip='预览不执行' }
        @{ name='--no-editor'; tip='跳过编辑器直接重命名' }
        @{ name='--multi-tab'; tip='多标签编辑器适配' }
        @{ name='--reverse'; tip='反转排序顺序' }
        @{ name='--timeout'; tip='编辑器等待超时（秒）' }
        @{ name='--depth'; tip='目录搜索深度（层级）' }
        @{ name='--sort-by'; tip='重命名顺序' }
        @{ name='--exclude'; tip='排除的类型' }
        @{ name='--path-type'; tip='路径类型' }
    )

    # 值型选项判断：末位已是完成选项看末位；末位是正补的取值则看前一个。
    $prevIdx = if ($tokens.Count -gt 1 -and $tokens[-1] -eq $wordToComplete -and $wordToComplete -ne '') {
        $tokens.Count - 2
    } else {
        $tokens.Count - 1
    }
    $last = if ($prevIdx -ge 0) { $tokens[$prevIdx] } else { '' }
    if ($valueMap.ContainsKey($last)) {
        $valueMap[$last] | Where-Object { $_.name -like "$wordToComplete*" } |
            ForEach-Object { [System.Management.Automation.CompletionResult]::new($_.name, $_.name, 'ParameterValue', $_.tip) }
        return
    }

    $candidates = @()
    switch ($cmd) {
        ''           { $candidates = $commands }
        'rename'     { $candidates = $renameOpts }
        'restore'    { $candidates = @(@{ name='--all'; tip='恢复全部历史' }, @{ name='--partial'; tip='用编辑器筛选日志行' }) }
        'history'    { $candidates = @(@{ name='--all'; tip='查看全部历史' }) }
        'config'     { $candidates = @(@{ name='set'; tip='设置配置项' }, @{ name='set-editor'; tip='设置编辑器' }, @{ name='reset'; tip='重置默认配置' }) }
        'completion' { $candidates = @(
            @{ name='bash'; tip='生成 bash 补全' }
            @{ name='zsh'; tip='生成 zsh 补全' }
            @{ name='pwsh'; tip='生成 pwsh 补全' }
            @{ name='fish'; tip='生成 fish 补全' }
            @{ name='psc'; tip='生成 psc 补全' }
        ) }
        'help'       { $candidates = $commands }
        default      { $candidates = @() }
    }

    $candidates | Where-Object { $_.name -like "$wordToComplete*" } |
"#;

/// The last lines of the PSCompletions completion script.
pub const PSC_FOOTER: &'static str = r#"        ForEach-Object { [System.Management.Automation.CompletionResult]::new($_.name, $_.name, 'ParameterValue', $_.tip) }
}
"#;

/// The marker in the PowerShell template that stands for two spaces.
pub const TWO_SPACES_MARKER: &'static str = "@@TWO_SPACES@@";

/// Whether `generate` knows the shell of this name.
pub open spec fn is_known_shell(shell: Seq<char>) -> bool {
    ||| shell == "bash"@
    ||| shell == "zsh"@
    ||| shell == "pwsh"@
    ||| shell == "fish"@
    ||| shell == "psc"@
}

/// The Chinese completion script of a shell, or `None` for an unknown name.
pub open spec fn template(shell: Seq<char>) -> Option<Seq<char>> {
    if shell == "bash"@ {
        Some(BASH_HEADER@ + BASH_BODY@ + BASH_FOOTER@)
    } else if shell == "zsh"@ {
        Some(ZSH_HEADER@ + ZSH_BODY@ + ZSH_FOOTER@)
    } else if shell == "pwsh"@ {
        Some(replaced(PWSH_HEADER@ + PWSH_BODY@ + PWSH_FOOTER@, TWO_SPACES_MARKER@, "  "@))
    } else if shell == "fish"@ {
        Some(FISH_HEADER@ + FISH_BODY@ + FISH_FOOTER@)
    } else if shell == "psc"@ {
        Some(PSC_HEADER@ + PSC_BODY@ + PSC_FOOTER@)
    } else {
        None
    }
}

/// The phrases that the English script has in place of Chinese ones:
/// each pair is a Chinese phrase and its English replacement, applied in
/// this order.
pub open spec fn english_phrases() -> Seq<(Seq<char>, Seq<char>)> {
    seq![
        ("生成 shell 补全脚本"@, "Generate a shell completion script"@),
        ("查看/设置配置"@, "View/change configuration"@),
        ("启动图形界面"@, "Start the graphical interface"@),
        ("显示帮助信息"@, "Show help"@),
        ("查看重命名日志"@, "View rename history"@),
        ("编辑器模式批量重命名"@, "Batch rename in editor mode"@),
        ("恢复重命名"@, "Restore renames"@),
        ("版本信息"@, "Version information"@),
        ("完整路径"@, "Full path"@),
        ("完整文件名"@, "File name only"@),
        ("不含扩展名"@, "Without extension"@),
        ("仅扩展名"@, "Extension only"@),
        ("生成"@, "Generate"@),
        ("补全"@, "completion"@),
        ("安装"@, "Install"@),
    ]
}

/// `s` after replacing, for each pair in turn, every match of its first
/// part by its second.
pub open spec fn replaced_in_turn(s: Seq<char>, pairs: Seq<(Seq<char>, Seq<char>)>) -> Seq<char>
    decreases pairs.len(),
{
    if pairs.len() == 0 {
        s
    } else {
        replaced(replaced_in_turn(s, pairs.drop_last()), pairs.last().0, pairs.last().1)
    }
}

/// A Chinese text as it reads in the given language.
pub open spec fn localized(text: Seq<char>, lang: Language) -> Seq<char> {
    match lang {
        Language::ZhCn => text,
        Language::EnUs => replaced_in_turn(text, english_phrases()),
    }
}

/// The completion script of a shell in a language, or `None` for an
/// unknown shell name.
pub open spec fn script(shell: Seq<char>, lang: Language) -> Option<Seq<char>> {
    match template(shell) {
        Some(t) => Some(localized(t, lang)),
        None => None,
    }
}

/// The views of a list of phrase pairs.
pub open spec fn phrase_views(v: Seq<(&'static str, &'static str)>) -> Seq<(Seq<char>, Seq<char>)> {
    v.map_values(|p: (&'static str, &'static str)| (p.0@, p.1@))
}

/// The pairs of `english_phrases`, as string slices.
fn english_phrase_list() -> (v: Vec<(&'static str, &'static str)>)
    ensures
        phrase_views(v@) == english_phrases(),
{
    let v = vec![
        ("生成 shell 补全脚本", "Generate a shell completion script"),
        ("查看/设置配置", "View/change configuration"),
        ("启动图形界面", "Start the graphical interface"),
        ("显示帮助信息", "Show help"),
        ("查看重命名日志", "View rename history"),
        ("编辑器模式批量重命名", "Batch rename in editor mode"),
        ("恢复重命名", "Restore renames"),
        ("版本信息", "Version information"),
        ("完整路径", "Full path"),
        ("完整文件名", "File name only"),
        ("不含扩展名", "Without extension"),
        ("仅扩展名", "Extension only"),
        ("生成", "Generate"),
        ("补全", "completion"),
        ("安装", "Install"),
    ];
    assert(phrase_views(v@) =~= english_phrases());
    v
}

/// The characters of `head`, then those of `body`, then those of `foot`.
fn joined(head: &str, body: &str, foot: &str) -> (v: Vec<char>)
    ensures
        v@ == head@ + body@ + foot@,
{
    let mut v = to_chars(head);
    let rest = to_chars(body);
    push_all(&mut v, &rest);
    let last = to_chars(foot);
    push_all(&mut v, &last);
    v
}

/// The characters of the Chinese template of a shell, or `None` for an
/// unknown shell name.
fn template_chars(shell: &str) -> (r: Option<Vec<char>>)
    ensures
        match template(shell@) {
            Some(t) => r matches Some(v) && v@ == t,
            None => r is None,
        },
{
    if str_equal(shell, "bash") {
        Some(joined(BASH_HEADER, BASH_BODY, BASH_FOOTER))
    } else if str_equal(shell, "zsh") {
        Some(joined(ZSH_HEADER, ZSH_BODY, ZSH_FOOTER))
    } else if str_equal(shell, "pwsh") {
        let body = joined(PWSH_HEADER, PWSH_BODY, PWSH_FOOTER);
        let marker = to_chars(TWO_SPACES_MARKER);
        let spaces = to_chars("  ");
        Some(replace_chars(&body, &marker, &spaces))
    } else if str_equal(shell, "fish") {
        Some(joined(FISH_HEADER, FISH_BODY, FISH_FOOTER))
    } else if str_equal(shell, "psc") {
        Some(joined(PSC_HEADER, PSC_BODY, PSC_FOOTER))
    } else {
        None
    }
}

/// `text` after replacing each phrase of `english_phrases` in turn.
fn to_english(text: Vec<char>) -> (r: Vec<char>)
    ensures
        r@ == replaced_in_turn(text@, english_phrases()),
{
    let phrases = english_phrase_list();
    let ghost pairs = english_phrases();
    let mut cur = text;
    let mut i: usize = 0;
    assert(pairs.take(0) =~= Seq::<(Seq<char>, Seq<char>)>::empty());
    while i < phrases.len()
        invariant
            phrase_views(phrases@) == pairs,
            pairs == english_phrases(),
            i <= phrases.len(),
            cur@ == replaced_in_turn(text@, pairs.take(i as int)),
        decreases phrases.len() - i,
    {
        let (from, to) = phrases[i];
        assert(pairs[i as int] == (from@, to@));
        let from_v = to_chars(from);
        let to_v = to_chars(to);
        cur = replace_chars(&cur, &from_v, &to_v);
        i = i + 1;
        assert(pairs.take(i as int).drop_last() =~= pairs.take(i - 1));
    }
    assert(pairs.take(i as int) =~= pairs);
    cur
}

/// The completion script of `shell` in `lang`, or `None` where the shell
/// name is none of `SHELLS`.
pub fn generate(shell: &str, lang: Language) -> (r: Option<String>)
    ensures
        r is Some <==> is_known_shell(shell@),
        match script(shell@, lang) {
            Some(t) => r matches Some(s) && s@ == t,
            None => r is None,
        },
{
    let body = match template_chars(shell) {
        Some(v) => v,
        None => return None,
    };
    match lang {
        Language::ZhCn => Some(from_chars(&body)),
        Language::EnUs => {
            let english = to_english(body);
            Some(from_chars(&english))
        },
    }
}

/// The help text of `usage` in each language.
pub open spec fn usage_text(lang: Language) -> Seq<char> {
    match lang {
        Language::ZhCn => USAGE_ZH@,
        Language::EnUs => USAGE_EN@,
    }
}

/// Example command lines that install the completion script of each
/// shell, in Chinese.
pub const USAGE_ZH: &'static str = "示例:\n  onomedit completion bash > ~/.local/share/bash-completion/completions/onomedit\n  onomedit completion zsh  > ~/.zfunc/_onomedit\n  onomedit completion pwsh > \"$HOME\\Documents\\PowerShell\\onomedit.ps1\"\n  onomedit completion fish > ~/.config/fish/completions/onomedit.fish\n  onomedit completion psc  > \"$HOME\\Documents\\PowerShell\\onomedit.psc.ps1\"";

/// Example command lines that install the completion script of each
/// shell, in English.
pub const USAGE_EN: &'static str = "Examples:\n  onomedit completion bash > ~/.local/share/bash-completion/completions/onomedit\n  onomedit completion zsh  > ~/.zfunc/_onomedit\n  onomedit completion pwsh > \"$HOME\\Documents\\PowerShell\\onomedit.ps1\"\n  onomedit completion fish > ~/.config/fish/completions/onomedit.fish\n  onomedit completion psc  > \"$HOME\\Documents\\PowerShell\\onomedit.psc.ps1\"";

/// Example command lines that install the completion script of each
/// shell, in `lang`.
pub fn usage(lang: Language) -> (r: &'static str)
    ensures
        r@ == usage_text(lang),
{
    match lang {
        Language::ZhCn => USAGE_ZH,
        Language::EnUs => USAGE_EN,
    }
}

/// The names in `SHELLS` are exactly the shells that `generate` knows.
pub proof fn law_shells_are_the_known_shells(name: Seq<char>)
    ensures
        forall|i: int| 0 <= i < 5 ==> #[trigger] is_known_shell(SHELLS@[i]@),
        is_known_shell(name) <==> exists|i: int| 0 <= i < 5 && SHELLS@[i]@ == name,
{
    if is_known_shell(name) {
        if name == "bash"@ {
            assert(SHELLS@[0]@ == name);
        } else if name == "zsh"@ {
            assert(SHELLS@[1]@ == name);
        } else if name == "pwsh"@ {
            assert(SHELLS@[2]@ == name);
        } else if name == "fish"@ {
            assert(SHELLS@[3]@ == name);
        } else {
            assert(SHELLS@[4]@ == name);
        }
    }
}

/// Whether a shell has a script does not depend on the language.
pub proof fn law_language_keeps_availability(shell: Seq<char>)
    ensures
        script(shell, Language::ZhCn) is Some <==> script(shell, Language::EnUs) is Some,
        script(shell, Language::ZhCn) is Some <==> is_known_shell(shell),
{
}

/// Replacing phrases in turn never brings in a character that neither the
/// text nor any replacement holds.
proof fn lemma_in_turn_adds_no_character(s: Seq<char>, pairs: Seq<(Seq<char>, Seq<char>)>, c: char)
    requires
        !s.contains(c),
        forall|i: int| 0 <= i < pairs.len() ==> !(#[trigger] pairs[i]).1.contains(c),
    ensures
        !replaced_in_turn(s, pairs).contains(c),
    decreases pairs.len(),
{
    if pairs.len() > 0 {
        let init = pairs.drop_last();
        assert forall|i: int| 0 <= i < init.len() implies !(#[trigger] init[i]).1.contains(c) by {
            assert(init[i] == pairs[i]);
        }
        lemma_in_turn_adds_no_character(s, init, c);
        law_replaced_adds_no_character(replaced_in_turn(s, init), pairs.last().0, pairs.last().1, c);
    }
}

/// A script never holds a character that its Chinese template and every
/// English replacement lack.
pub proof fn law_script_adds_no_character(shell: Seq<char>, lang: Language, c: char)
    requires
        template(shell) matches Some(t) && !t.contains(c),
        forall|i: int| 0 <= i < english_phrases().len() ==> !(#[trigger] english_phrases()[i]).1.contains(c),
    ensures
        script(shell, lang) matches Some(t) && !t.contains(c),
{
    let t = template(shell)->0;
    lemma_in_turn_adds_no_character(t, english_phrases(), c);
}

/// Replacing phrases in turn keeps every occurrence of a text that no match
/// of any of the phrases can overlap.
proof fn lemma_in_turn_keeps_text(s: Seq<char>, pairs: Seq<(Seq<char>, Seq<char>)>, w: Seq<char>)
    requires
        occurs_in(s, w),
        forall|i: int| 0 <= i < pairs.len() ==> cannot_overlap((#[trigger] pairs[i]).0, w),
    ensures
        occurs_in(replaced_in_turn(s, pairs), w),
    decreases pairs.len(),
{
    if pairs.len() > 0 {
        let init = pairs.drop_last();
        assert forall|i: int| 0 <= i < init.len() implies cannot_overlap((#[trigger] init[i]).0, w) by {
            assert(init[i] == pairs[i]);
        }
        lemma_in_turn_keeps_text(s, init, w);
        let mid = replaced_in_turn(s, init);
        let k = choose|k: int| occurs_at(mid, k, w);
        law_replaced_keeps_text(mid, k, w, pairs.last().0, pairs.last().1);
    }
}

/// The English script keeps every text of the Chinese template that no
/// replaced phrase can overlap.
pub proof fn law_english_keeps_text(shell: Seq<char>, w: Seq<char>)
    requires
        template(shell) matches Some(t) && occurs_in(t, w),
        forall|i: int| 0 <= i < english_phrases().len() ==> cannot_overlap((#[trigger] english_phrases()[i]).0, w),
    ensures
        script(shell, Language::EnUs) matches Some(t) && occurs_in(t, w),
{
    lemma_in_turn_keeps_text(template(shell)->0, english_phrases(), w);
}

/// Neither language brings a carriage return into a script whose Chinese
/// template has none.
pub proof fn law_no_carriage_return_added(shell: Seq<char>, lang: Language)
    requires
        template(shell) matches Some(t) && !t.contains('\r'),
    ensures
        script(shell, lang) matches Some(t) && !t.contains('\r'),
{
    reveal_strlit("Generate a shell completion script");
    reveal_strlit("View/change configuration");
    reveal_strlit("Start the graphical interface");
    reveal_strlit("Show help");
    reveal_strlit("View rename history");
    reveal_strlit("Batch rename in editor mode");
    reveal_strlit("Restore renames");
    reveal_strlit("Version information");
    reveal_strlit("Full path");
    reveal_strlit("File name only");
    reveal_strlit("Without extension");
    reveal_strlit("Extension only");
    reveal_strlit("Generate");
    reveal_strlit("completion");
    reveal_strlit("Install");
    assert forall|i: int| 0 <= i < english_phrases().len() implies !(#[trigger] english_phrases()[i]).1.contains('\r') by {
        let e = english_phrases()[i].1;
        if e.contains('\r') {
            let k = choose|k: int| 0 <= k < e.len() && e[k] == '\r';
        }
    }
    law_script_adds_no_character(shell, lang, '\r');
}

/// The subcommands of `onomedit` that every completion script offers.
pub open spec fn command_names() -> Seq<Seq<char>> {
    seq!["completion"@, "config"@, "gui"@, "help"@, "history"@, "rename"@, "restore"@, "version"@]
}

/// No phrase that the English script replaces can overlap a subcommand name.
proof fn lemma_phrases_cannot_overlap_commands(i: int, p: int)
    requires
        0 <= i < command_names().len(),
        0 <= p < english_phrases().len(),
    ensures
        cannot_overlap(english_phrases()[p].0, command_names()[i]),
{
    reveal_strlit("生成 shell 补全脚本");
    reveal_strlit("查看/设置配置");
    reveal_strlit("启动图形界面");
    reveal_strlit("显示帮助信息");
    reveal_strlit("查看重命名日志");
    reveal_strlit("编辑器模式批量重命名");
    reveal_strlit("恢复重命名");
    reveal_strlit("版本信息");
    reveal_strlit("完整路径");
    reveal_strlit("完整文件名");
    reveal_strlit("不含扩展名");
    reveal_strlit("仅扩展名");
    reveal_strlit("生成");
    reveal_strlit("补全");
    reveal_strlit("安装");
    reveal_strlit("completion");
    reveal_strlit("config");
    reveal_strlit("gui");
    reveal_strlit("help");
    reveal_strlit("history");
    reveal_strlit("rename");
    reveal_strlit("restore");
    reveal_strlit("version");
    let w = command_names()[i];
    let from = english_phrases()[p].0;
    assert(!w.contains(from[0])) by {
        if w.contains(from[0]) {
            let k = choose|k: int| 0 <= k < w.len() && w[k] == from[0];
        }
    }
    if p == 0 && (i == 3 || i == 4) {
        assert forall|j: int| 0 < j < from.len() implies !agree(#[trigger] from.skip(j), w) by {
            if j == 4 {
                assert(from.skip(j)[1] == from[5]);
                assert(from.skip(j)[3] == from[7]);
            } else {
                assert(from.skip(j)[0] == from[j]);
            }
        }
    } else {
        lemma_cannot_overlap_by_first_chars(from, w);
    }
}

/// The English script of a shell names every subcommand that its Chinese
/// template names.
pub proof fn law_english_keeps_command_names(shell: Seq<char>, i: int)
    requires
        0 <= i < command_names().len(),
        template(shell) matches Some(t) && occurs_in(t, command_names()[i]),
    ensures
        script(shell, Language::EnUs) matches Some(t) && occurs_in(t, command_names()[i]),
{
    assert forall|p: int| 0 <= p < english_phrases().len() implies cannot_overlap(
        (#[trigger] english_phrases()[p]).0,
        command_names()[i],
    ) by {
        lemma_phrases_cannot_overlap_commands(i, p);
    }
    law_english_keeps_text(shell, command_names()[i]);
}

/// Each Chinese phrase of the list is non-empty and starts with a character
/// outside ASCII; each English replacement is ASCII.
proof fn lemma_phrase_classes()
    ensures
        english_phrases().len() == 15,
        forall|i: int| 0 <= i < 15 ==> {
            &&& (#[trigger] english_phrases()[i]).0.len() > 0
            &&& (english_phrases()[i].0[0] as u32) >= 128
            &&& all_ascii(english_phrases()[i].1)
        },
{
    reveal_strlit("生成 shell 补全脚本");
    reveal_strlit("Generate a shell completion script");
    reveal_strlit("查看/设置配置");
    reveal_strlit("View/change configuration");
    reveal_strlit("启动图形界面");
    reveal_strlit("Start the graphical interface");
    reveal_strlit("显示帮助信息");
    reveal_strlit("Show help");
    reveal_strlit("查看重命名日志");
    reveal_strlit("View rename history");
    reveal_strlit("编辑器模式批量重命名");
    reveal_strlit("Batch rename in editor mode");
    reveal_strlit("恢复重命名");
    reveal_strlit("Restore renames");
    reveal_strlit("版本信息");
    reveal_strlit("Version information");
    reveal_strlit("完整路径");
    reveal_strlit("Full path");
    reveal_strlit("完整文件名");
    reveal_strlit("File name only");
    reveal_strlit("不含扩展名");
    reveal_strlit("Without extension");
    reveal_strlit("仅扩展名");
    reveal_strlit("Extension only");
    reveal_strlit("生成");
    reveal_strlit("Generate");
    reveal_strlit("补全");
    reveal_strlit("completion");
    reveal_strlit("安装");
    reveal_strlit("Install");
}

/// Replacing phrases in turn keeps a text at the start inside which no
/// phrase can start.
proof fn lemma_in_turn_keeps_prefix(s: Seq<char>, pairs: Seq<(Seq<char>, Seq<char>)>, p: Seq<char>)
    requires
        occurs_at(s, 0, p),
        forall|i: int| 0 <= i < pairs.len() ==> (#[trigger] pairs[i]).0.len() > 0 && no_match_starts_in(pairs[i].0, p),
    ensures
        occurs_at(replaced_in_turn(s, pairs), 0, p),
    decreases pairs.len(),
{
    if pairs.len() > 0 {
        let init = pairs.drop_last();
        assert forall|i: int| 0 <= i < init.len() implies (#[trigger] init[i]).0.len() > 0 && no_match_starts_in(init[i].0, p) by {
            assert(init[i] == pairs[i]);
        }
        lemma_in_turn_keeps_prefix(s, init, p);
        law_replaced_keeps_prefix(replaced_in_turn(s, init), p, pairs.last().0, pairs.last().1);
    }
}

/// An ASCII text at the start of a Chinese script stays at the start of the
/// script in either language.
proof fn lemma_localized_keeps_ascii_prefix(t: Seq<char>, p: Seq<char>, lang: Language)
    requires
        occurs_at(t, 0, p),
        all_ascii(p),
    ensures
        occurs_at(localized(t, lang), 0, p),
{
    lemma_phrase_classes();
    assert forall|i: int| 0 <= i < english_phrases().len() implies (#[trigger] english_phrases()[i]).0.len() > 0
        && no_match_starts_in(english_phrases()[i].0, p) by {
        lemma_ascii_lacks(p, english_phrases()[i].0[0]);
        lemma_no_match_starts_by_first_char(english_phrases()[i].0, p);
    }
    lemma_in_turn_keeps_prefix(t, english_phrases(), p);
}

/// A text starts with a header it is made of.
proof fn lemma_starts_with_head(head: Seq<char>, body: Seq<char>)
    ensures
        occurs_at(head + body, 0, head),
{
    assert((head + body).subrange(0, head.len() as int) =~= head);
}

/// The shell names that `template` tells apart, with their lengths.
proof fn lemma_shell_names()
    ensures
        "bash"@.len() == 4,
        "zsh"@.len() == 3,
        "pwsh"@.len() == 4,
        "fish"@.len() == 4,
        "psc"@.len() == 3,
        "zsh"@ != "bash"@,
        "pwsh"@ != "bash"@,
        "pwsh"@ != "zsh"@,
        "fish"@ != "bash"@,
        "fish"@ != "zsh"@,
        "fish"@ != "pwsh"@,
        "psc"@ != "bash"@,
        "psc"@ != "zsh"@,
        "psc"@ != "pwsh"@,
        "psc"@ != "fish"@,
{
    reveal_strlit("bash");
    reveal_strlit("zsh");
    reveal_strlit("pwsh");
    reveal_strlit("fish");
    reveal_strlit("psc");
    assert("bash"@[0] == 'b');
    assert("pwsh"@[0] == 'p');
    assert("fish"@[0] == 'f');
    assert("zsh"@[0] == 'z');
    assert("psc"@[0] == 'p');
    assert("psc"@[1] == 's');
}

/// A script made of an ASCII header and a body begins, in either language,
/// with that header.
proof fn lemma_header_leads(head: Seq<char>, body: Seq<char>, foot: Seq<char>, lang: Language)
    requires
        all_ascii(head),
    ensures
        occurs_at(localized(head + body + foot, lang), 0, head),
{
    assert(head + body + foot =~= head + (body + foot));
    lemma_starts_with_head(head, body + foot);
    lemma_localized_keeps_ascii_prefix(head + (body + foot), head, lang);
}

/// Every shell gets its own script: in either language, the script of each
/// known shell begins with the header line that names that shell.
pub proof fn law_each_shell_gets_its_own_script(lang: Language)
    ensures
        script("bash"@, lang) matches Some(t) && occurs_at(t, 0, "# bash completion for onomedit\n"@),
        script("zsh"@, lang) matches Some(t) && occurs_at(
            t,
            0,
            "#compdef onomedit\n# zsh completion for onomedit\n"@,
        ),
        script("pwsh"@, lang) matches Some(t) && occurs_at(t, 0, "# PowerShell completion for onomedit\n"@),
        script("fish"@, lang) matches Some(t) && occurs_at(t, 0, "# fish completion for onomedit\n"@),
        script("psc"@, lang) matches Some(t) && occurs_at(t, 0, "# PSCompletions completion for onomedit\n"@),
{
    lemma_shell_names();
    assert(all_ascii(BASH_HEADER@)) by {
        reveal_strlit("# bash completion for onomedit\n");
    }
    lemma_header_leads(BASH_HEADER@, BASH_BODY@, BASH_FOOTER@, lang);
    assert(all_ascii(ZSH_HEADER@)) by {
        reveal_strlit("#compdef onomedit\n# zsh completion for onomedit\n");
        let h = ZSH_HEADER@;
        assert forall|t: int| 0 <= t < h.len() implies (h[t] as u32) < 128 by {
            if t < 24 {
            } else {
            }
        }
    }
    lemma_header_leads(ZSH_HEADER@, ZSH_BODY@, ZSH_FOOTER@, lang);
    assert(all_ascii(FISH_HEADER@)) by {
        reveal_strlit("# fish completion for onomedit\n");
    }
    lemma_header_leads(FISH_HEADER@, FISH_BODY@, FISH_FOOTER@, lang);
    assert(all_ascii(PSC_HEADER@)) by {
        reveal_strlit("# PSCompletions completion for onomedit\n");
    }
    lemma_header_leads(PSC_HEADER@, PSC_BODY@, PSC_FOOTER@, lang);
    let ph = PWSH_HEADER@;
    assert(all_ascii(ph) && !ph.contains('@')) by {
        reveal_strlit("# PowerShell completion for onomedit\n");
        if ph.contains('@') {
            let k = choose|k: int| 0 <= k < ph.len() && ph[k] == '@';
        }
    }
    assert(TWO_SPACES_MARKER@.len() == 14 && TWO_SPACES_MARKER@[0] == '@') by {
        reveal_strlit("@@TWO_SPACES@@");
    }
    let rest = PWSH_BODY@ + PWSH_FOOTER@;
    assert(ph + PWSH_BODY@ + PWSH_FOOTER@ =~= ph + rest);
    lemma_starts_with_head(ph, rest);
    lemma_no_match_starts_by_first_char(TWO_SPACES_MARKER@, ph);
    law_replaced_keeps_prefix(ph + rest, ph, TWO_SPACES_MARKER@, "  "@);
    lemma_localized_keeps_ascii_prefix(replaced(ph + rest, TWO_SPACES_MARKER@, "  "@), ph, lang);
}

/// The English script of every shell is its Chinese script with the listed
/// phrases replaced in turn; a shell has both scripts or neither.
pub proof fn law_english_is_translated_chinese(shell: Seq<char>)
    ensures
        match (script(shell, Language::ZhCn), script(shell, Language::EnUs)) {
            (Some(zh), Some(en)) => en == replaced_in_turn(zh, english_phrases()),
            (None, None) => true,
            _ => false,
        },
{
}

/// A character that can stand just before or after a phrase in a script
/// line: ASCII, and neither a lower-case letter, a space nor a slash.
pub open spec fn is_frame_char(b: char) -> bool {
    &&& (b as u32) < 128
    &&& b != ' '
    &&& b != '/'
    &&& !('a' <= b && b <= 'z')
}

/// Every character of `p` is outside ASCII, a lower-case letter, a space or
/// a slash.
spec fn frame_free(p: Seq<char>) -> bool {
    forall|t: int| 0 <= t < p.len() ==> {
        ||| (p[t] as u32) >= 128
        ||| p[t] == ' '
        ||| p[t] == '/'
        ||| ('a' <= p[t] && p[t] <= 'z')
    }
}

/// The Chinese phrases of the list hold no character that can frame them.
proof fn lemma_phrases_frame_free()
    ensures
        forall|i: int| 0 <= i < 15 ==> frame_free(#[trigger] english_phrases()[i].0),
{
    reveal_strlit("生成 shell 补全脚本");
    reveal_strlit("查看/设置配置");
    reveal_strlit("启动图形界面");
    reveal_strlit("显示帮助信息");
    reveal_strlit("查看重命名日志");
    reveal_strlit("编辑器模式批量重命名");
    reveal_strlit("恢复重命名");
    reveal_strlit("版本信息");
    reveal_strlit("完整路径");
    reveal_strlit("完整文件名");
    reveal_strlit("不含扩展名");
    reveal_strlit("仅扩展名");
    reveal_strlit("生成");
    reveal_strlit("补全");
    reveal_strlit("安装");
}

/// A text made only of characters that cannot frame lacks each frame
/// character.
proof fn lemma_frame_free_lacks(p: Seq<char>, b: char)
    requires
        frame_free(p),
        is_frame_char(b),
    ensures
        !p.contains(b),
{
    if p.contains(b) {
        let k = choose|k: int| 0 <= k < p.len() && p[k] == b;
    }
}

/// For an earlier phrase `j` and a later phrase `i` of the list, the first
/// character of phrase `j` does not occur in phrase `i`, except for the
/// three pairs that share it.
proof fn lemma_first_char_absent(i: int, j: int)
    requires
        0 <= j < i < 15,
        !(i == 4 && j == 1),
        !(i == 9 && j == 8),
        !(i == 12 && j == 0),
    ensures
        !english_phrases()[i].0.contains(english_phrases()[j].0[0]),
{
    reveal_strlit("生成 shell 补全脚本");
    reveal_strlit("查看/设置配置");
    reveal_strlit("启动图形界面");
    reveal_strlit("显示帮助信息");
    reveal_strlit("查看重命名日志");
    reveal_strlit("编辑器模式批量重命名");
    reveal_strlit("恢复重命名");
    reveal_strlit("版本信息");
    reveal_strlit("完整路径");
    reveal_strlit("完整文件名");
    reveal_strlit("不含扩展名");
    reveal_strlit("仅扩展名");
    reveal_strlit("生成");
    reveal_strlit("补全");
    reveal_strlit("安装");
    let p = english_phrases()[i].0;
    let c = english_phrases()[j].0[0];
    if p.contains(c) {
        let k = choose|k: int| 0 <= k < p.len() && p[k] == c;
    }
}

/// No match of a pattern can overlap a framed text when the pattern's first
/// character is none of the text's and the pattern lacks the opening frame.
proof fn lemma_cannot_overlap_framed(from: Seq<char>, b1: char, x: Seq<char>, b2: char)
    requires
        from.len() > 0,
        !x.contains(from[0]),
        from[0] != b1,
        from[0] != b2,
        !from.contains(b1),
    ensures
        cannot_overlap(from, framed(b1, x, b2)),
{
    let w = framed(b1, x, b2);
    assert(!w.contains(from[0])) by {
        if w.contains(from[0]) {
            let k = choose|k: int| 0 <= k < w.len() && w[k] == from[0];
            if 0 < k < w.len() - 1 {
                assert(x[k - 1] == from[0]);
            }
        }
    }
    assert forall|j: int| 0 < j < from.len() implies from[j] != w[0] by {
        if from[j] == b1 {
            assert(from.contains(b1));
        }
    }
    lemma_cannot_overlap_by_first_chars(from, w);
}

/// The three pairs of the list whose later phrase holds the first character
/// of the earlier one still cannot overlap once framed.
proof fn lemma_shared_first_chars(i: int, j: int, b1: char, b2: char)
    requires
        (i == 4 && j == 1) || (i == 9 && j == 8) || (i == 12 && j == 0),
        is_frame_char(b1),
        is_frame_char(b2),
    ensures
        cannot_overlap(english_phrases()[j].0, framed(b1, english_phrases()[i].0, b2)),
{
    reveal_strlit("查看/设置配置");
    reveal_strlit("查看重命名日志");
    reveal_strlit("完整路径");
    reveal_strlit("完整文件名");
    reveal_strlit("生成 shell 补全脚本");
    reveal_strlit("生成");
    let from = english_phrases()[j].0;
    let x = english_phrases()[i].0;
    let w = framed(b1, x, b2);
    assert(w.len() == x.len() + 2);
    assert(w[0] == b1);
    assert(w[w.len() - 1] == b2);
    assert forall|t: int| 0 <= t < x.len() implies w[t + 1] == x[t] by {}
    assert forall|jj: int| 0 < jj < from.len() implies !agree(#[trigger] from.skip(jj), w) by {
        assert(from.skip(jj)[0] == from[jj]);
    }
    assert forall|jj: int| 0 <= jj < w.len() implies !agree(from, #[trigger] w.skip(jj)) by {
        let r = w.skip(jj);
        assert(r[0] == w[jj]);
        if jj == 1 {
            assert(r[1] == w[2]);
            assert(r[2] == w[3]);
        }
    }
}

/// Replacing phrases in turn turns a framed occurrence of phrase `i` into
/// its replacement, framed alike, when no other phrase can overlap it.
proof fn lemma_in_turn_translates(
    s: Seq<char>,
    pairs: Seq<(Seq<char>, Seq<char>)>,
    i: int,
    b1: char,
    b2: char,
)
    requires
        0 <= i < pairs.len(),
        pairs[i].0.len() > 0,
        !pairs[i].0.contains(b1),
        !pairs[i].0.contains(b2),
        occurs_in(s, framed(b1, pairs[i].0, b2)),
        forall|j: int| 0 <= j < i ==> cannot_overlap((#[trigger] pairs[j]).0, framed(b1, pairs[i].0, b2)),
        forall|j: int| i < j < pairs.len() ==> cannot_overlap((#[trigger] pairs[j]).0, framed(b1, pairs[i].1, b2)),
    ensures
        occurs_in(replaced_in_turn(s, pairs), framed(b1, pairs[i].1, b2)),
    decreases pairs.len(),
{
    let init = pairs.drop_last();
    let last = pairs.len() - 1;
    let mid = replaced_in_turn(s, init);
    if i == last {
        assert forall|j: int| 0 <= j < init.len() implies cannot_overlap(
            (#[trigger] init[j]).0,
            framed(b1, pairs[i].0, b2),
        ) by {
            assert(init[j] == pairs[j]);
        }
        lemma_in_turn_keeps_text(s, init, framed(b1, pairs[i].0, b2));
        let k = choose|k: int| occurs_at(mid, k, framed(b1, pairs[i].0, b2));
        law_replaced_translates_framed(mid, k, b1, b2, pairs[i].0, pairs[i].1);
    } else {
        assert(init[i] == pairs[i]);
        assert forall|j: int| 0 <= j < i implies cannot_overlap((#[trigger] init[j]).0, framed(b1, init[i].0, b2)) by {
            assert(init[j] == pairs[j]);
        }
        assert forall|j: int| i < j < init.len() implies cannot_overlap((#[trigger] init[j]).0, framed(b1, init[i].1, b2)) by {
            assert(init[j] == pairs[j]);
        }
        lemma_in_turn_translates(s, init, i, b1, b2);
        let k = choose|k: int| occurs_at(mid, k, framed(b1, pairs[i].1, b2));
        law_replaced_keeps_text(mid, k, framed(b1, pairs[i].1, b2), pairs.last().0, pairs.last().1);
    }
}

/// Localizing to English turns a framed occurrence of the `i`-th listed
/// phrase into its English replacement, framed alike.
proof fn lemma_entry_translates(s: Seq<char>, i: int, b1: char, b2: char)
    requires
        0 <= i < 15,
        is_frame_char(b1),
        is_frame_char(b2),
        occurs_in(s, framed(b1, english_phrases()[i].0, b2)),
    ensures
        occurs_in(localized(s, Language::EnUs), framed(b1, english_phrases()[i].1, b2)),
{
    let pairs = english_phrases();
    lemma_phrase_classes();
    lemma_phrases_frame_free();
    lemma_frame_free_lacks(pairs[i].0, b1);
    lemma_frame_free_lacks(pairs[i].0, b2);
    assert forall|j: int| 0 <= j < i implies cannot_overlap((#[trigger] pairs[j]).0, framed(b1, pairs[i].0, b2)) by {
        if (i == 4 && j == 1) || (i == 9 && j == 8) || (i == 12 && j == 0) {
            lemma_shared_first_chars(i, j, b1, b2);
        } else {
            lemma_first_char_absent(i, j);
            lemma_frame_free_lacks(pairs[j].0, b1);
            lemma_cannot_overlap_framed(pairs[j].0, b1, pairs[i].0, b2);
        }
    }
    assert forall|j: int| i < j < pairs.len() implies cannot_overlap((#[trigger] pairs[j]).0, framed(b1, pairs[i].1, b2)) by {
        lemma_ascii_lacks(pairs[i].1, pairs[j].0[0]);
        lemma_frame_free_lacks(pairs[j].0, b1);
        lemma_cannot_overlap_framed(pairs[j].0, b1, pairs[i].1, b2);
    }
    lemma_in_turn_translates(s, pairs, i, b1, b2);
}

/// In any text, localizing to English turns each listed Chinese phrase that
/// stands between two frame characters (such as `'help:显示帮助信息'` or
/// `tip='版本信息'`) into its English translation between the same two
/// characters.
pub proof fn law_english_translates_framed_phrases(s: Seq<char>, b1: char, b2: char, zh: Seq<char>, en: Seq<char>)
    requires
        is_frame_char(b1),
        is_frame_char(b2),
        occurs_in(s, framed(b1, zh, b2)),
        ({
            ||| (zh, en) == ("生成 shell 补全脚本"@, "Generate a shell completion script"@)
            ||| (zh, en) == ("查看/设置配置"@, "View/change configuration"@)
            ||| (zh, en) == ("启动图形界面"@, "Start the graphical interface"@)
            ||| (zh, en) == ("显示帮助信息"@, "Show help"@)
            ||| (zh, en) == ("查看重命名日志"@, "View rename history"@)
            ||| (zh, en) == ("编辑器模式批量重命名"@, "Batch rename in editor mode"@)
            ||| (zh, en) == ("恢复重命名"@, "Restore renames"@)
            ||| (zh, en) == ("版本信息"@, "Version information"@)
            ||| (zh, en) == ("完整路径"@, "Full path"@)
            ||| (zh, en) == ("完整文件名"@, "File name only"@)
            ||| (zh, en) == ("不含扩展名"@, "Without extension"@)
            ||| (zh, en) == ("仅扩展名"@, "Extension only"@)
            ||| (zh, en) == ("生成"@, "Generate"@)
            ||| (zh, en) == ("补全"@, "completion"@)
            ||| (zh, en) == ("安装"@, "Install"@)
        }),
    ensures
        occurs_in(localized(s, Language::EnUs), framed(b1, en, b2)),
{
    let pairs = english_phrases();
    let i = choose|i: int| 0 <= i < 15 && pairs[i] == (zh, en);
    lemma_entry_translates(s, i, b1, b2);
}

/// A character that the listed Chinese phrases may hold: one outside ASCII,
/// a space, a slash, or a letter of "shell".
spec fn phrase_char(c: char) -> bool {
    ||| (c as u32) >= 128
    ||| c == ' '
    ||| c == '/'
    ||| c == 's'
    ||| c == 'h'
    ||| c == 'e'
    ||| c == 'l'
}

/// The listed Chinese phrases end with a character outside ASCII and hold
/// only phrase characters; no English replacement starts with one.
proof fn lemma_phrase_shapes()
    ensures
        forall|i: int| 0 <= i < 15 ==> {
            &&& ((#[trigger] english_phrases()[i]).0[english_phrases()[i].0.len() - 1] as u32) >= 128
            &&& forall|t: int| 0 <= t < english_phrases()[i].0.len() ==> phrase_char(english_phrases()[i].0[t])
            &&& english_phrases()[i].1.len() > 0
            &&& !phrase_char(english_phrases()[i].1[0])
        },
{
    reveal_strlit("生成 shell 补全脚本");
    reveal_strlit("Generate a shell completion script");
    reveal_strlit("查看/设置配置");
    reveal_strlit("View/change configuration");
    reveal_strlit("启动图形界面");
    reveal_strlit("Start the graphical interface");
    reveal_strlit("显示帮助信息");
    reveal_strlit("Show help");
    reveal_strlit("查看重命名日志");
    reveal_strlit("View rename history");
    reveal_strlit("编辑器模式批量重命名");
    reveal_strlit("Batch rename in editor mode");
    reveal_strlit("恢复重命名");
    reveal_strlit("Restore renames");
    reveal_strlit("版本信息");
    reveal_strlit("Version information");
    reveal_strlit("完整路径");
    reveal_strlit("Full path");
    reveal_strlit("完整文件名");
    reveal_strlit("File name only");
    reveal_strlit("不含扩展名");
    reveal_strlit("Without extension");
    reveal_strlit("仅扩展名");
    reveal_strlit("Extension only");
    reveal_strlit("生成");
    reveal_strlit("Generate");
    reveal_strlit("补全");
    reveal_strlit("completion");
    reveal_strlit("安装");
    reveal_strlit("Install");
}

/// Replacing phrases in turn leaves no occurrence of phrase `i` when no later
/// replacement holds its first or last character or lies inside it.
proof fn lemma_in_turn_leaves_no_phrase(s: Seq<char>, pairs: Seq<(Seq<char>, Seq<char>)>, i: int)
    requires
        0 <= i < pairs.len(),
        forall|j: int| 0 <= j < pairs.len() ==> (#[trigger] pairs[j]).0.len() > 0,
        forall|j: int| i <= j < pairs.len() ==> {
            &&& !(#[trigger] pairs[j]).1.contains(pairs[i].0[0])
            &&& !pairs[j].1.contains(pairs[i].0[pairs[i].0.len() - 1])
            &&& !occurs_in(pairs[i].0, pairs[j].1)
        },
    ensures
        !occurs_in(replaced_in_turn(s, pairs), pairs[i].0),
    decreases pairs.len(),
{
    let init = pairs.drop_last();
    let last = pairs.len() - 1;
    let mid = replaced_in_turn(s, init);
    assert(pairs.last() == pairs[last]);
    if i == last {
        law_replaced_leaves_no_text(mid, pairs[i].0, pairs[i].1, pairs[i].0);
    } else {
        assert(init[i] == pairs[i]);
        assert forall|j: int| 0 <= j < init.len() implies (#[trigger] init[j]).0.len() > 0 by {
            assert(init[j] == pairs[j]);
        }
        assert forall|j: int| i <= j < init.len() implies {
            &&& !(#[trigger] init[j]).1.contains(init[i].0[0])
            &&& !init[j].1.contains(init[i].0[init[i].0.len() - 1])
            &&& !occurs_in(init[i].0, init[j].1)
        } by {
            assert(init[j] == pairs[j]);
        }
        lemma_in_turn_leaves_no_phrase(s, init, i);
        law_replaced_leaves_no_text(mid, pairs[last].0, pairs[last].1, pairs[i].0);
    }
}

/// Localizing to English leaves no occurrence of the `i`-th listed phrase.
proof fn lemma_entry_gone(s: Seq<char>, i: int)
    requires
        0 <= i < 15,
    ensures
        !occurs_in(localized(s, Language::EnUs), english_phrases()[i].0),
{
    let pairs = english_phrases();
    lemma_phrase_classes();
    lemma_phrase_shapes();
    let p = pairs[i].0;
    assert forall|j: int| i <= j < pairs.len() implies {
        &&& !(#[trigger] pairs[j]).1.contains(p[0])
        &&& !pairs[j].1.contains(p[p.len() - 1])
        &&& !occurs_in(p, pairs[j].1)
    } by {
        let e = pairs[j].1;
        lemma_ascii_lacks(e, p[0]);
        lemma_ascii_lacks(e, p[p.len() - 1]);
        assert(!p.contains(e[0])) by {
            if p.contains(e[0]) {
                let k = choose|k: int| 0 <= k < p.len() && p[k] == e[0];
                assert(phrase_char(p[k]));
            }
        }
        lemma_absent_by_first_char(p, e);
    }
    lemma_in_turn_leaves_no_phrase(s, pairs, i);
}

/// In any text, localizing to English leaves none of the listed Chinese
/// phrases.
pub proof fn law_english_holds_no_listed_phrase(s: Seq<char>)
    ensures
        !occurs_in(localized(s, Language::EnUs), "生成 shell 补全脚本"@),
        !occurs_in(localized(s, Language::EnUs), "查看/设置配置"@),
        !occurs_in(localized(s, Language::EnUs), "启动图形界面"@),
        !occurs_in(localized(s, Language::EnUs), "显示帮助信息"@),
        !occurs_in(localized(s, Language::EnUs), "查看重命名日志"@),
        !occurs_in(localized(s, Language::EnUs), "编辑器模式批量重命名"@),
        !occurs_in(localized(s, Language::EnUs), "恢复重命名"@),
        !occurs_in(localized(s, Language::EnUs), "版本信息"@),
        !occurs_in(localized(s, Language::EnUs), "完整路径"@),
        !occurs_in(localized(s, Language::EnUs), "完整文件名"@),
        !occurs_in(localized(s, Language::EnUs), "不含扩展名"@),
        !occurs_in(localized(s, Language::EnUs), "仅扩展名"@),
        !occurs_in(localized(s, Language::EnUs), "生成"@),
        !occurs_in(localized(s, Language::EnUs), "补全"@),
        !occurs_in(localized(s, Language::EnUs), "安装"@),
{
    assert forall|i: int| 0 <= i < 15 implies !occurs_in(localized(s, Language::EnUs), #[trigger] english_phrases()[i].0) by {
        lemma_entry_gone(s, i);
    }
    assert(english_phrases()[0].0 == "生成 shell 补全脚本"@);
    assert(english_phrases()[1].0 == "查看/设置配置"@);
    assert(english_phrases()[2].0 == "启动图形界面"@);
    assert(english_phrases()[3].0 == "显示帮助信息"@);
    assert(english_phrases()[4].0 == "查看重命名日志"@);
    assert(english_phrases()[5].0 == "编辑器模式批量重命名"@);
    assert(english_phrases()[6].0 == "恢复重命名"@);
    assert(english_phrases()[7].0 == "版本信息"@);
    assert(english_phrases()[8].0 == "完整路径"@);
    assert(english_phrases()[9].0 == "完整文件名"@);
    assert(english_phrases()[10].0 == "不含扩展名"@);
    assert(english_phrases()[11].0 == "仅扩展名"@);
    assert(english_phrases()[12].0 == "生成"@);
    assert(english_phrases()[13].0 == "补全"@);
    assert(english_phrases()[14].0 == "安装"@);
}

/// `s` ends with `f`.
pub open spec fn ends_with(s: Seq<char>, f: Seq<char>) -> bool {
    &&& f.len() <= s.len()
    &&& s.subrange(s.len() - f.len(), s.len() as int) == f
}

/// Replacing phrases in turn keeps a tail that holds neither the first nor
/// the last character of any phrase, after the replaced text before it.
proof fn lemma_in_turn_splits_before_tail(a: Seq<char>, f: Seq<char>, pairs: Seq<(Seq<char>, Seq<char>)>)
    requires
        forall|j: int| 0 <= j < pairs.len() ==> {
            &&& (#[trigger] pairs[j]).0.len() > 0
            &&& !f.contains(pairs[j].0[0])
            &&& !f.contains(pairs[j].0[pairs[j].0.len() - 1])
        },
    ensures
        replaced_in_turn(a + f, pairs) == replaced_in_turn(a, pairs) + f,
    decreases pairs.len(),
{
    if pairs.len() > 0 {
        let init = pairs.drop_last();
        let last = pairs.len() - 1;
        assert(pairs.last() == pairs[last]);
        assert forall|j: int| 0 <= j < init.len() implies {
            &&& (#[trigger] init[j]).0.len() > 0
            &&& !f.contains(init[j].0[0])
            &&& !f.contains(init[j].0[init[j].0.len() - 1])
        } by {
            assert(init[j] == pairs[j]);
        }
        lemma_in_turn_splits_before_tail(a, f, init);
        law_replaced_splits_before_tail(replaced_in_turn(a, init), f, pairs[last].0, pairs[last].1);
    }
}

/// An ASCII tail of a Chinese text stays, unchanged, at the end of the text
/// in either language.
proof fn lemma_ascii_tail_trails(x: Seq<char>, f: Seq<char>, lang: Language)
    requires
        all_ascii(f),
    ensures
        localized(x + f, lang) == localized(x, lang) + f,
{
    lemma_phrase_classes();
    lemma_phrase_shapes();
    assert forall|j: int| 0 <= j < english_phrases().len() implies {
        &&& (#[trigger] english_phrases()[j]).0.len() > 0
        &&& !f.contains(english_phrases()[j].0[0])
        &&& !f.contains(english_phrases()[j].0[english_phrases()[j].0.len() - 1])
    } by {
        let p = english_phrases()[j].0;
        lemma_ascii_lacks(f, p[0]);
        lemma_ascii_lacks(f, p[p.len() - 1]);
    }
    lemma_in_turn_splits_before_tail(x, f, english_phrases());
}

/// A text ends with the tail it was made with.
proof fn lemma_ends_with_tail(x: Seq<char>, f: Seq<char>)
    ensures
        ends_with(x + f, f),
{
    assert((x + f).subrange(x.len() as int, (x + f).len() as int) =~= f);
}

/// Every shell gets its own script: in either language, the script of each
/// known shell ends with the last lines that belong to that shell.
pub proof fn law_each_shell_ends_with_its_own_lines(lang: Language)
    ensures
        script("bash"@, lang) matches Some(t) && ends_with(t, "complete -o default -F _onomedit onomedit\n"@),
        script("zsh"@, lang) matches Some(t) && ends_with(t, "_onomedit\n"@),
        script("pwsh"@, lang) matches Some(t) && ends_with(t, "          ForEach-Object { [System.Management.Automation.CompletionResult]::new($_, $_, 'ParameterValue', $_) }\n}\n"@),
        script("fish"@, lang) matches Some(t) && ends_with(t, "complete -c onomedit -f -n '__fish_seen_subcommand_from help' -a 'completion config gui help history rename restore version'\n"@),
        script("psc"@, lang) matches Some(t) && ends_with(t, "        ForEach-Object { [System.Management.Automation.CompletionResult]::new($_.name, $_.name, 'ParameterValue', $_.tip) }\n}\n"@),
{
    lemma_shell_names();
    assert(all_ascii(BASH_FOOTER@)) by {
        reveal_strlit("complete -o default -F _onomedit onomedit\n");
        lemma_ascii_str(BASH_FOOTER);
    }
    assert(all_ascii(ZSH_FOOTER@)) by {
        reveal_strlit("_onomedit\n");
        lemma_ascii_str(ZSH_FOOTER);
    }
    assert(all_ascii(PWSH_FOOTER@)) by {
        reveal_strlit("          ForEach-Object { [System.Management.Automation.CompletionResult]::new($_, $_, 'ParameterValue', $_) }\n}\n");
        lemma_ascii_str(PWSH_FOOTER);
    }
    assert(all_ascii(FISH_FOOTER@)) by {
        reveal_strlit("complete -c onomedit -f -n '__fish_seen_subcommand_from help' -a 'completion config gui help history rename restore version'\n");
        lemma_ascii_str(FISH_FOOTER);
    }
    assert(all_ascii(PSC_FOOTER@)) by {
        reveal_strlit("        ForEach-Object { [System.Management.Automation.CompletionResult]::new($_.name, $_.name, 'ParameterValue', $_.tip) }\n}\n");
        lemma_ascii_str(PSC_FOOTER);
    }
    lemma_ascii_tail_trails(BASH_HEADER@ + BASH_BODY@, BASH_FOOTER@, lang);
    lemma_ends_with_tail(localized(BASH_HEADER@ + BASH_BODY@, lang), BASH_FOOTER@);
    lemma_ascii_tail_trails(ZSH_HEADER@ + ZSH_BODY@, ZSH_FOOTER@, lang);
    lemma_ends_with_tail(localized(ZSH_HEADER@ + ZSH_BODY@, lang), ZSH_FOOTER@);
    lemma_ascii_tail_trails(FISH_HEADER@ + FISH_BODY@, FISH_FOOTER@, lang);
    lemma_ends_with_tail(localized(FISH_HEADER@ + FISH_BODY@, lang), FISH_FOOTER@);
    lemma_ascii_tail_trails(PSC_HEADER@ + PSC_BODY@, PSC_FOOTER@, lang);
    lemma_ends_with_tail(localized(PSC_HEADER@ + PSC_BODY@, lang), PSC_FOOTER@);
    let pf = PWSH_FOOTER@;
    let marker = TWO_SPACES_MARKER@;
    assert(marker.len() == 14 && marker[0] == '@' && marker[13] == '@') by {
        reveal_strlit("@@TWO_SPACES@@");
    }
    let front = PWSH_HEADER@ + PWSH_BODY@;
    let m = replaced(front, marker, "  "@);
    assert(!pf.contains('@')) by {
        reveal_strlit("          ForEach-Object { [System.Management.Automation.CompletionResult]::new($_, $_, 'ParameterValue', $_) }\n}\n");
        if pf.contains('@') {
            let k = choose|k: int| 0 <= k < pf.len() && pf[k] == '@';
        }
    }
    law_replaced_splits_before_tail(front, pf, marker, "  "@);
    lemma_ascii_tail_trails(m, pf, lang);
    lemma_ends_with_tail(localized(m, lang), pf);
}

} // verus!
