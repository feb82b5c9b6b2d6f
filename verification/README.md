# argc_parser

A tokenizer for shell scripts that declare their command line in comments.

```sh
# @describe A demo cli

# @cmd A subcommand
# @flag   -f --foo            A flag
# @option -o --opt[=a|b|c]    An option with choices
# @arg    file!               A required argument
run() {
    :
}
```

`parse` gives one event, with the number of its line, for each line that holds a tag or opens a
function. Tags that are unknown, or not written as they should be, are reported too.
`ArgData::to_string` writes an argument in the notation that `parse_option_arg`,
`parse_flag_arg` and `parse_positional_arg` read.

Everything in `src/` is verified with Verus:

- `grammar` defines what each text means; `parser` is proved to find exactly that.
- `arg` and `event` hold the data, and the notation of arguments.
- `notation` proves which arguments are read back unchanged from their text.
- `script` proves what holds of every line and of every script.
- `text` and `chars` split strings at character positions, by character class.

One contract is taken on trust: that of `String::push`.

`app/` adds `Display` and `anyhow` errors around the library.
