# model_radar

The verified core of the Model Radar desktop companion, a small tray and taskbar
widget that follows two public leaderboards of coding models.

- `src/` is the library, verified with Verus: desktop preferences and menu
  routing (`preferences`), window placement across work areas (`geometry`), the
  debounced saving of the window position (`position_state`), placement of the
  companion in the Windows 11 taskbar (`taskbar`), validation and ranking of the
  two feeds (`source`, `domain`, `text`) and the refresh bookkeeping of the radar
  service (`service`).
- `tests/` exercises the library on concrete values.
- `app/` is the Tauri shell around it: windows, tray, files, HTTP, notifications,
  Win32 calls and the floating-point parts (scale factors, average statistics).
