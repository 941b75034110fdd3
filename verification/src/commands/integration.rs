use vstd::prelude::*;

verus! {

/// The shells for which a widget can be generated.
#[derive(Debug, Clone, Copy, PartialEq, Eq, PartialOrd, Ord, Structural)]
pub enum Shell {
    Zsh,
    ZshTmux,
    BashTmux,
}

/// The widget for zsh: it runs the menu on the terminal and puts the command
/// into the line being edited.
pub const ZSH_SCRIPT: &'static str = r#"
# which-cmd integration for zsh
which_cmd_widget() {
    local result
    # The <$TTY part ensures that which-cmd reads input from the terminal ($TTY) rather than from
    #   the shell's standard input, which may not be connected to the terminal when running in a
    #   ZLE widget.
    <$TTY which-cmd build
    if [[ $? -eq 0 ]]; then
        result=$(which-cmd get)
        LBUFFER+="$result"
    fi
    zle reset-prompt
}
zle -N which_cmd_widget
bindkey '^P' which_cmd_widget
"#;

/// The widget for zsh inside tmux: it runs the menu in a popup when the line
/// is empty, and runs the command at once where it carries the immediate
/// marker.
pub const ZSH_TMUX_SCRIPT: &'static str = r#"
# which-cmd integration for zsh + tmux
which_cmd_tmux_widget() {
  if [[ $LBUFFER == "" ]]; then
    local result
    tmux display-popup -S fg=brightblack -T '#[fg=white bold] which-cmd #[fg=default]' -y P -w 95% -h 12 -b rounded -E "which-cmd build --immediate"
    result=$(which-cmd get)
    if [[ $result != "" ]]; then
      if [[ $result = __IMMEDIATE__* ]]; then
        local cmd
        cmd=$(echo $result | cut -d' ' -f2-)
        LBUFFER+="$cmd"
        zle accept-line
      else
        LBUFFER+="$result"
        zle self-insert
      fi
    fi
    zle reset-prompt
  else
    zle self-insert
  fi
}
zle -N which_cmd_tmux_widget
bindkey ' ' which_cmd_tmux_widget
"#;

/// The widget for bash inside tmux: it runs the menu in a popup when the line
/// is empty, and runs the command at once where it carries the immediate
/// marker.
pub const BASH_TMUX_SCRIPT: &'static str = r#"
# which-cmd integration for bash + tmux
which_cmd_tmux_widget() {
  if [[ "$READLINE_LINE" == "" ]]; then
    local result
    tmux display-popup -S fg=brightblack -T '#[fg=white bold] which-cmd #[fg=default]' -y P -w 95% -h 12 -b rounded -E "which-cmd build --immediate"
    result=$(which-cmd get)
    if [[ "$result" != "" ]]; then
      if [[ "$result" = __IMMEDIATE__* ]]; then
        local cmd
        cmd=$(echo "$result" | cut -d' ' -f2-)
        READLINE_LINE="$cmd"
        READLINE_POINT=${#READLINE_LINE}
        # Simulate pressing Enter by inserting newline
        eval "$READLINE_LINE"
        READLINE_LINE=""
        READLINE_POINT=0
      else
        READLINE_LINE+="$result"
        READLINE_POINT=${#READLINE_LINE}
      fi
    fi
  fi
}

which_cmd_tmux_space() {
  if [[ "$READLINE_LINE" == "" ]]; then
    which_cmd_tmux_widget
  else
    READLINE_LINE+=" "
    READLINE_POINT=${#READLINE_LINE}
  fi
}
bind -x '"\x20": which_cmd_tmux_space'
"#;

/// The text of the widget for a shell.
pub open spec fn script_of(shell: Shell) -> Seq<char> {
    match shell {
        Shell::Zsh => ZSH_SCRIPT@,
        Shell::ZshTmux => ZSH_TMUX_SCRIPT@,
        Shell::BashTmux => BASH_TMUX_SCRIPT@,
    }
}

/// The text that sets the widget up in the given shell.
pub fn integration_script(shell: Shell) -> (script: &'static str)
    ensures
        script@ == script_of(shell),
{
    match shell {
        Shell::Zsh => ZSH_SCRIPT,
        Shell::ZshTmux => ZSH_TMUX_SCRIPT,
        Shell::BashTmux => BASH_TMUX_SCRIPT,
    }
}

} // verus!
