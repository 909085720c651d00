# drift

The pure core of Drift, a macOS client for GNOME Remote Desktop, written in Verus: every
function in `src/` carries a contract and is proved against it.

- **Video**: Annex-B and AVCC framing (`annexb`), emulation prevention and bit packing
  (`rbsp`), the SPS grammar and its BT.709 full-range rewrite (`sps`), parameter-set tracking
  (`params`), the RFX AVC420 metablock (`metablock`), presentation times and keyframe gaps
  (`encode`), the recording state machine and its stop decisions (`mp4`), PSNR's squared error
  (`quality`).
- **Windows and menus**: the per-window view model (`view`), presentation rules (`present`),
  the tab strip (`strip`), window labels and opening order (`windows`), the menu bar (`menu`),
  the Dock menu (`dock`), the Connections gallery's thumbnails (`connections`).
- **Profiles and services**: credential rules (`profiles`), launch options (`options`),
  clipboard fan-out and reconnect triggers (`services`).
- **Test support**: the fake RDP server's protocol rules and channels (`fake_server`,
  `fake_channels`), wire fixtures (`fixtures`), golden images (`golden`), scripted input
  (`e2e`), the recording frame sink (`frame_sink`), passwords in memory (`secrets`).

Laws that span several calls are public proof functions named `lemma_*` next to the functions
they speak of.

`app/` holds what cannot be verified: file and thread plumbing, the async runner, and the
floating-point window geometry. `tests/` exercises the library on concrete values.
