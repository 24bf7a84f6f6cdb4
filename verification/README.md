# onomedit completion

The verified library that writes the shell completion scripts of the
`onomedit` command line (bash, zsh, PowerShell, fish and PSCompletions), in
Chinese or English, and the help text that shows how to install them.

- `src/text.rs`: character-level replacement on strings, stated over
  `Seq<char>` (`replaced`), with the laws that replacing adds no new
  character and keeps every text that no match can overlap.
- `src/completion.rs`: the script templates, `generate` and `usage`, and the
  laws tying the scripts of the two languages together.
- `app/lib.rs`: picks the interface language from the locale environment and
  calls the library.
