//! The descriptor chains of a video mode, and the choice of the chain for
//! every line.
//!
//! Four chains are built when the mode is set up: for the lines of the
//! vertical sync pulse, for the other lines without picture, for lines of
//! the picture, and for lines of the picture whose pixels are not at hand.
//! At every line boundary the line counter moves on and the chain for the
//! next line is chosen; of the chain for picture lines, only the addresses
//! of the pixels change from line to line.

use vstd::prelude::*;
use crate::dvi::dma::{ActiveRegion, DmaChannels, DviScanlineDmaList};
use crate::dvi::timing::{DviTiming, DviTimingLineState, DviTimingState};

verus! {

/// The chains of a video mode.
#[derive(Clone, Copy, PartialEq, Eq, Structural)]
pub enum LineChain {
    /// A line of the vertical sync pulse.
    VblankSync,
    /// Any other line without picture.
    VblankNoSync,
    /// A line of the picture.
    Active,
    /// A line that stands in for a line of the picture.
    Error,
}

/// The chain for a line of region `line_state`, given whether the pixels
/// of the line are at hand.
pub open spec fn chain_for(line_state: DviTimingLineState, has_pixels: bool) -> LineChain {
    match line_state {
        DviTimingLineState::Sync => LineChain::VblankSync,
        DviTimingLineState::Active => if has_pixels {
            LineChain::Active
        } else {
            LineChain::Error
        },
        _ => LineChain::VblankNoSync,
    }
}

/// The region of the frame that a chain is built for.
pub open spec fn region_of(chain: LineChain) -> DviTimingLineState {
    match chain {
        LineChain::VblankSync => DviTimingLineState::Sync,
        LineChain::VblankNoSync => DviTimingLineState::FrontPorch,
        _ => DviTimingLineState::Active,
    }
}

/// The chains of a video mode with the scan position.
pub struct DviChains {
    timing: DviTiming,
    timing_state: DviTimingState,
    channels: DmaChannels,
    ctrl_syms: [u32; 4],
    empty: [u32; 3],
    rows: Ghost<Seq<u32>>,
    dma_list_vblank_sync: DviScanlineDmaList,
    dma_list_vblank_nosync: DviScanlineDmaList,
    dma_list_active: DviScanlineDmaList,
    dma_list_error: DviScanlineDmaList,
}

impl DviChains {
    /// The video mode.
    pub closed spec fn timing(&self) -> DviTiming {
        self.timing
    }

    /// The line counter.
    pub closed spec fn v_ctr(&self) -> int {
        self.timing_state@
    }

    /// The DMA resources of the lanes.
    pub closed spec fn channels(&self) -> DmaChannels {
        self.channels
    }

    /// The addresses of the control symbol words.
    pub closed spec fn ctrl_syms(&self) -> Seq<u32> {
        self.ctrl_syms@
    }

    /// The addresses of the words of a line without pixels.
    pub closed spec fn empty(&self) -> Seq<u32> {
        self.empty@
    }

    /// The addresses of the rows of pixels that the chain for picture
    /// lines reads.
    pub closed spec fn rows(&self) -> Seq<u32> {
        self.rows@
    }

    /// The descriptors of a chain.
    pub closed spec fn list(&self, chain: LineChain) -> DviScanlineDmaList {
        match chain {
            LineChain::VblankSync => self.dma_list_vblank_sync,
            LineChain::VblankNoSync => self.dma_list_vblank_nosync,
            LineChain::Active => self.dma_list_active,
            LineChain::Error => self.dma_list_error,
        }
    }

    /// What a chain sends in the active region.
    pub open spec fn region(&self, chain: LineChain) -> ActiveRegion {
        match chain {
            LineChain::Active => ActiveRegion::Pixels(self.rows()),
            LineChain::Error => ActiveRegion::Filled(self.empty()),
            _ => ActiveRegion::Blank,
        }
    }

    /// The invariant: the line counter lies within the frame, and every
    /// chain is the one for its lines.
    pub open spec fn wf(&self) -> bool {
        &&& self.timing().valid()
        &&& 0 <= self.v_ctr() < self.timing().frame_lines()
        &&& forall|chain: LineChain|
            (#[trigger] self.list(chain)).describes(
                self.timing(),
                self.channels(),
                region_of(chain),
                self.ctrl_syms(),
                self.region(chain),
            )
    }

    /// The chains of a video mode, before the first line.
    ///
    /// `ctrl_syms` holds the addresses of the four control symbol words
    /// and `empty` those of the words that a line without pixels repeats
    /// on the three lanes.
    pub fn new(timing: DviTiming, channels: DmaChannels, ctrl_syms: [u32; 4], empty: [u32; 3]) -> (r:
        Self)
        requires
            timing.valid(),
            timing.frame_lines() > 0,
        ensures
            r.wf(),
            r.timing() == timing,
            r.channels() == channels,
            r.ctrl_syms() == ctrl_syms@,
            r.empty() == empty@,
            r.rows() == seq![0u32, 0u32, 0u32],
            r.v_ctr() == 0,
    {
        let mut dma_list_vblank_sync = DviScanlineDmaList::default();
        let mut dma_list_vblank_nosync = DviScanlineDmaList::default();
        let mut dma_list_active = DviScanlineDmaList::default();
        let mut dma_list_error = DviScanlineDmaList::default();
        dma_list_vblank_sync.setup_scanline(
            &timing,
            &channels,
            DviTimingLineState::Sync,
            false,
            &ctrl_syms,
            &empty,
        );
        dma_list_vblank_nosync.setup_scanline(
            &timing,
            &channels,
            DviTimingLineState::FrontPorch,
            false,
            &ctrl_syms,
            &empty,
        );
        dma_list_active.setup_scanline(
            &timing,
            &channels,
            DviTimingLineState::Active,
            true,
            &ctrl_syms,
            &empty,
        );
        dma_list_error.setup_scanline(
            &timing,
            &channels,
            DviTimingLineState::Active,
            false,
            &ctrl_syms,
            &empty,
        );
        let ghost rows = seq![0u32, 0u32, 0u32];
        DviChains {
            timing,
            timing_state: DviTimingState::new(0),
            channels,
            ctrl_syms,
            empty,
            rows: Ghost(rows),
            dma_list_vblank_sync,
            dma_list_vblank_nosync,
            dma_list_active,
            dma_list_error,
        }
    }

    /// The descriptors of a chain, to be loaded into the channels.
    pub fn chain(&self, chain: LineChain) -> (r: &DviScanlineDmaList)
        ensures
            *r == self.list(chain),
    {
        match chain {
            LineChain::VblankSync => &self.dma_list_vblank_sync,
            LineChain::VblankNoSync => &self.dma_list_vblank_nosync,
            LineChain::Active => &self.dma_list_active,
            LineChain::Error => &self.dma_list_error,
        }
    }

    /// The chain for the line at which the counter stands, when that line
    /// has no pixels: the chain to start with.
    pub fn start(&self) -> (r: LineChain)
        requires
            self.wf(),
        ensures
            r == chain_for(self.timing().line_state(self.v_ctr()), false),
    {
        match self.timing_state.v_state(&self.timing) {
            DviTimingLineState::Sync => LineChain::VblankSync,
            DviTimingLineState::Active => LineChain::Error,
            _ => LineChain::VblankNoSync,
        }
    }

    /// The picture row of the line that lies `offset` lines ahead of the
    /// counter, if that is a line of the picture of this frame.
    pub fn scanline(&self, offset: u32) -> (r: Option<u32>)
        requires
            self.wf(),
        ensures
            r.is_some() == self.timing().scanline_index(self.v_ctr(), offset as int).is_some(),
            r.is_some() ==> self.timing().scanline_index(self.v_ctr(), offset as int) == Some(
                r.unwrap() as int,
            ),
    {
        self.timing_state.v_scanline_index(&self.timing, offset)
    }

    /// Number of words that every lane sends in the active region of a
    /// line.
    pub fn active_words(&self) -> (r: u32)
        ensures
            r == self.timing().h_active_pixels / 2,
    {
        self.timing.h_active_pixels / 2
    }

    /// Moves on to the next line and chooses its chain.
    ///
    /// `pixels` is the address of the row of pixels of lane 0 for the
    /// next line, with the number of bytes from the row of one lane to
    /// that of the next, if the next line is a line of the picture whose
    /// pixels are at hand. The chain for picture lines is then pointed at
    /// them. A line of the picture without pixels gets the chain that
    /// stands in for it.
    pub fn on_line_boundary(&mut self, pixels: Option<(u32, u32)>) -> (r: LineChain)
        requires
            old(self).wf(),
            pixels.is_some() ==> pixels.unwrap().0 + 2 * pixels.unwrap().1 <= u32::MAX,
        ensures
            final(self).wf(),
            final(self).timing() == old(self).timing(),
            final(self).channels() == old(self).channels(),
            final(self).ctrl_syms() == old(self).ctrl_syms(),
            final(self).empty() == old(self).empty(),
            final(self).v_ctr() == old(self).timing().next_count(old(self).v_ctr()),
            r == chain_for(old(self).timing().line_state(final(self).v_ctr()), pixels.is_some()),
            final(self).rows() == if r == LineChain::Active {
                seq![
                    pixels.unwrap().0,
                    (pixels.unwrap().0 + pixels.unwrap().1) as u32,
                    (pixels.unwrap().0 + 2 * pixels.unwrap().1) as u32,
                ]
            } else {
                old(self).rows()
            },
            forall|chain: LineChain|
                chain != LineChain::Active ==> final(self).list(chain) == old(self).list(chain),
    {
        self.timing_state.advance(&self.timing);
        proof {
            assert forall|chain: LineChain|
                (#[trigger] self.list(chain)).describes(
                    self.timing(),
                    self.channels(),
                    region_of(chain),
                    self.ctrl_syms(),
                    self.region(chain),
                ) by {
                assert(self.list(chain) == old(self).list(chain));
            }
        }
        match self.timing_state.v_state(&self.timing) {
            DviTimingLineState::Sync => LineChain::VblankSync,
            DviTimingLineState::Active => {
                match pixels {
                    Some((buf, stride)) => {
                        let ghost before = *self;
                        proof {
                            assert(before.list(LineChain::Active).describes(
                                self.timing(),
                                self.channels(),
                                region_of(LineChain::Active),
                                self.ctrl_syms(),
                                before.region(LineChain::Active),
                            ));
                        }
                        self.dma_list_active.update_scanline(buf, stride);
                        proof {
                            let rows = seq![
                                buf,
                                (buf + stride) as u32,
                                (buf + 2 * stride) as u32,
                            ];
                            self.rows = Ghost(rows);
                            assert forall|chain: LineChain|
                                (#[trigger] self.list(chain)).describes(
                                    self.timing(),
                                    self.channels(),
                                    region_of(chain),
                                    self.ctrl_syms(),
                                    self.region(chain),
                                ) by {
                                if chain != LineChain::Active {
                                    assert(self.list(chain) == before.list(chain));
                                    assert(before.list(chain).describes(
                                        self.timing(),
                                        self.channels(),
                                        region_of(chain),
                                        self.ctrl_syms(),
                                        before.region(chain),
                                    ));
                                }
                            }
                        }
                        LineChain::Active
                    },
                    None => LineChain::Error,
                }
            },
            _ => LineChain::VblankNoSync,
        }
    }
}

} // verus!
