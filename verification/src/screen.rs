//! A sketch of a retained drawing facade: a screen hands out a recorder that
//! draw calls are queued on. Only the text entry point lives here; shape and
//! image drawing belong to the GPU-side drawers.

use vstd::prelude::*;

verus! {

pub struct Screen {}

impl Screen {
    pub fn new() -> Self {
        Self {}
    }

    pub fn begin(&mut self) -> DrawRecorder {
        DrawRecorder { texts: Vec::new() }
    }
}

/// Records draw requests for one frame.
pub struct DrawRecorder {
    texts: Vec<String>,
}

impl DrawRecorder {
    /// The text blocks recorded so far, oldest first.
    pub closed spec fn texts_seq(self) -> Seq<Seq<char>> {
        self.texts@.map_values(|t: String| t@)
    }

    /// Queue a block of text to draw.
    pub fn draw_text(&mut self, text: &str)
        ensures
            final(self).texts_seq() == old(self).texts_seq().push(text@),
    {
        self.texts.push(text.to_string());
        proof {
            assert(final(self).texts_seq() =~= old(self).texts_seq().push(text@));
        }
    }

    /// How many text blocks have been recorded.
    pub fn text_count(&self) -> (n: usize)
        ensures
            n == self.texts_seq().len(),
    {
        self.texts.len()
    }
}

} // verus!
