# opio

An AUR helper and package downgrader for Arch Linux. The library under `src/`
holds, verified with Verus, everything the program computes:

- `text`: the standard string operations the scrapers rely on (`contains`,
  `split`, `replace`, `join`, `trim`), specified over character sequences.
- `helper`: reading AUR package pages, search results and repository logs.
- `downgrade`: reading Arch Linux Archive listings, marking cached versions,
  choosing where a version is installed from.
- `update`: deciding on a self upgrade.
- `cli`: the download directory and the mode of a run.
- `utils`: pacman's version output, the banner, log and status lines.

`app/` is the program around it: argument parsing, HTTP requests, prompts,
progress bars and the commands it runs (`git`, `makepkg`, `pacman`, `tar`).
