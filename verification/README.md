# sandbox_wm

The decision logic of the sandboxWM Wayland compositor, written in Verus and
proved against its contracts.

- `src/` is the verified library: the BSP/Dwindle tiling tree (`tiling`), the
  rectangle arithmetic behind it (`geometry`), key names and shortcuts
  (`keys`, `text`, `config`), the window-manager state machine (`wm`), focus
  cycling, damage history, backend and mode choice, pointer-button actions,
  and the answers to the screencopy and output-management protocols.
- `tests/` runs the library on concrete values.
- `app/` is the compositor around it: Smithay (Wayland, DRM/KMS, winit,
  libinput), the rapier2d physics world, GL rendering and TOML loading.
