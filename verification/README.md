# radiochron-native-ble

Blocking, Tokio-free native BLE advertisement scanning for RadioChron, with its
logic verified by Verus.

- `src/` is the verified library: how the advertisements of a device are merged and
  ordered, how addresses and UUIDs are read and written, what the events of each
  platform mean, how long a scan waits, and what it reports.
- `app/` talks to the operating system: WinRT `BluetoothLEAdvertisementWatcher` on
  Windows, BlueZ through the system D-Bus on Linux, CoreBluetooth on macOS. It hands
  what it reads to the library and gives callers `scan` and `scan_with_observer`.
- `tests/` runs the library.

Consumers receive normalized `radiochron::ble::Advertisement` values and can supply a
cooperative cancellation and progress observer.

Linux requires BlueZ and access to the system D-Bus. macOS applications must include
the Bluetooth usage description required by Apple for their packaging model. Windows
capability and privacy policy are controlled by the host application.
