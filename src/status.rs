use vstd::prelude::*;

verus! {

/// Cells in the progress bar.
pub const BAR_CELLS: u64 = 15;

/// Filled cells of the bar at `percent`.
pub open spec fn filled_cells(percent: nat) -> nat {
    percent * 15 / 100
}

/// The bar: filled cells first, then empty ones, 15 in all.
pub open spec fn bar_of(percent: nat) -> Seq<char> {
    Seq::new(15, |i: int| if i < filled_cells(percent) { '█' } else { '░' })
}

pub open spec fn digit_char(d: nat) -> char {
    if d == 0 {
        '0'
    } else if d == 1 {
        '1'
    } else if d == 2 {
        '2'
    } else if d == 3 {
        '3'
    } else if d == 4 {
        '4'
    } else if d == 5 {
        '5'
    } else if d == 6 {
        '6'
    } else if d == 7 {
        '7'
    } else if d == 8 {
        '8'
    } else {
        '9'
    }
}

/// Decimal digits of `n`, without leading zeros.
pub open spec fn decimal(n: nat) -> Seq<char>
    decreases n,
{
    if n < 10 {
        seq![digit_char(n)]
    } else {
        decimal(n / 10).push(digit_char(n % 10))
    }
}

/// Text of the status message while the upload is at `percent`.
pub open spec fn status_text(percent: nat) -> Seq<char> {
    "Uploading image\n"@ + bar_of(percent) + " "@ + decimal(percent) + "%"@
}

fn digit_str(d: u8) -> (r: &'static str)
    requires
        d < 10,
    ensures
        r@ == seq![digit_char(d as nat)],
{
    if d == 0 {
        proof { reveal_strlit("0"); }
        "0"
    } else if d == 1 {
        proof { reveal_strlit("1"); }
        "1"
    } else if d == 2 {
        proof { reveal_strlit("2"); }
        "2"
    } else if d == 3 {
        proof { reveal_strlit("3"); }
        "3"
    } else if d == 4 {
        proof { reveal_strlit("4"); }
        "4"
    } else if d == 5 {
        proof { reveal_strlit("5"); }
        "5"
    } else if d == 6 {
        proof { reveal_strlit("6"); }
        "6"
    } else if d == 7 {
        proof { reveal_strlit("7"); }
        "7"
    } else if d == 8 {
        proof { reveal_strlit("8"); }
        "8"
    } else {
        proof { reveal_strlit("9"); }
        "9"
    }
}

/// Appends the decimal digits of `n` to `s`.
pub fn push_decimal(s: &mut String, n: u8)
    ensures
        final(s)@ == old(s)@ + decimal(n as nat),
{
    if n >= 100 {
        s.append(digit_str(n / 100));
    }
    if n >= 10 {
        s.append(digit_str((n / 10) % 10));
    }
    s.append(digit_str(n % 10));
    proof {
        reveal_with_fuel(decimal, 3);
        if n >= 100 {
            assert((n as nat / 10) / 10 == n as nat / 100);
        }
    }
}

/// Renders the bar of 15 cells for `percent`.
pub fn progress_bar(percent: u8) -> (r: String)
    requires
        percent <= 100,
    ensures
        r@ == bar_of(percent as nat),
        r@.len() == BAR_CELLS,
{
    let filled: u64 = percent as u64 * 15 / 100;
    let mut bar = String::new();
    let mut i: u64 = 0;
    while i < BAR_CELLS
        invariant
            i <= BAR_CELLS,
            filled == filled_cells(percent as nat),
            bar@ == bar_of(percent as nat).take(i as int),
        decreases BAR_CELLS - i,
    {
        if i < filled {
            proof { reveal_strlit("█"); }
            bar.append("█");
        } else {
            proof { reveal_strlit("░"); }
            bar.append("░");
        }
        assert(bar@ =~= bar_of(percent as nat).take(i + 1));
        i = i + 1;
    }
    assert(bar@ =~= bar_of(percent as nat));
    bar
}

/// The status message while the upload is at `percent`.
pub fn render_status(percent: u8) -> (r: String)
    requires
        percent <= 100,
    ensures
        r@ == status_text(percent as nat),
{
    let mut s = String::from_str("Uploading image\n");
    let bar = progress_bar(percent);
    s.append(bar.as_str());
    s.append(" ");
    push_decimal(&mut s, percent);
    s.append("%");
    s
}

/// Why a job ended without a result.
#[derive(PartialEq, Eq, Structural, Clone, Copy, Debug)]
pub enum JobError {
    /// The image link does not parse as a URL.
    InvalidUrl,
    /// The image link points outside the trusted asset hosts.
    NotDiscordHosted,
    /// The source image could not be downloaded.
    DownloadFailed,
    /// Decoding, composing or encoding the image failed.
    TransformFailed,
    /// The result could not be uploaded.
    UploadFailed,
}

/// The text shown to the user for each error.
pub open spec fn error_text(e: JobError) -> Seq<char> {
    match e {
        JobError::InvalidUrl => "Invalid url"@,
        JobError::NotDiscordHosted => "You can only use discord hosted images"@,
        JobError::DownloadFailed => "Could not download image"@,
        JobError::TransformFailed => "Could not transform image"@,
        JobError::UploadFailed => "Could not upload image result"@,
    }
}

/// The text of the final message of a job that succeeded.
pub open spec fn success_text() -> Seq<char> {
    "Here is your image!"@
}

impl JobError {
    /// The text shown to the user for this error.
    pub fn message(&self) -> (r: &'static str)
        ensures
            r@ == error_text(*self),
    {
        match self {
            JobError::InvalidUrl => "Invalid url",
            JobError::NotDiscordHosted => "You can only use discord hosted images",
            JobError::DownloadFailed => "Could not download image",
            JobError::TransformFailed => "Could not transform image",
            JobError::UploadFailed => "Could not upload image result",
        }
    }
}

/// The text of the final message of a job that succeeded.
pub fn success_message() -> (r: &'static str)
    ensures
        r@ == success_text(),
{
    "Here is your image!"
}

} // verus!
