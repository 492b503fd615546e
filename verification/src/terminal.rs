use vstd::prelude::*;
use anyhow::Context;
use crossterm::ExecutableCommand;

verus! {

#[verifier::external_type_specification]
#[verifier::external_body]
pub struct ExStdout(std::io::Stdout);

#[verifier::external_type_specification]
#[verifier::external_body]
pub struct ExAnyhowError(anyhow::Error);

/// Handles raw OS-level terminal interactions (alternate screen, raw
/// mode). Everything it does is display-sink lifecycle work at the I/O
/// boundary; nothing of the rendering pipeline depends on it.
pub struct TerminalHandle {
    pub stdout: std::io::Stdout,
}

impl TerminalHandle {
    /// Initializes the terminal handle, taking control of the screen
    /// state.
    ///
    /// Relies on crossterm's `enable_raw_mode` and `EnterAlternateScreen`
    /// for their terminal side effects; nothing about the returned handle
    /// is assumed beyond its existence.
    #[verifier::external_body]
    pub fn init() -> Result<TerminalHandle, anyhow::Error> {
        crossterm::terminal::enable_raw_mode().context("Failed to enable terminal raw mode")?;
        let mut out = std::io::stdout();
        out.execute(crossterm::terminal::EnterAlternateScreen).context(
            "Failed to enter alternate terminal screen",
        )?;
        Ok(TerminalHandle { stdout: out })
    }

    /// Cleans up the terminal handle, restoring OS-default cooked mode.
    /// It is critical this runs on exit to restore the user's terminal.
    ///
    /// Relies on crossterm's `disable_raw_mode` and
    /// `LeaveAlternateScreen` for their terminal side effects.
    #[verifier::external_body]
    pub fn cleanup(&mut self) -> Result<(), anyhow::Error> {
        crossterm::terminal::disable_raw_mode().context("Failed to disable terminal raw mode")?;
        self.stdout.execute(crossterm::terminal::LeaveAlternateScreen).context(
            "Failed to leave alternate terminal screen",
        )?;
        Ok(())
    }
}

} // verus!
